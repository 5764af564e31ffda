//! Archive extraction: which files are archives, how each is opened, and the
//! rules every extracted entry must pass (safe paths, size and count limits).
//! Reading and writing the files is left to the caller.
use vstd::prelude::*;

use crate::api::file::join_path;
use crate::text::{chars_of, contains_seq, decimal_int, ends_with_chars, has_suffix, lowercase, push_i64, string_from_chars, to_lowercase, find_chars, first_occurrence};

verus! {

/// One entry of an archive.
#[derive(Clone, Debug)]
pub struct ArchiveEntry {
    pub id: Option<i64>,
    pub file_id: i64,
    pub entry_path: String,
    pub size: Option<i64>,
    pub is_directory: bool,
}

/// What an extraction produced.
#[derive(Debug)]
pub struct ExtractResult {
    pub entries: Vec<ArchiveEntry>,
    pub needs_password: bool,
}

/// Why an archive could not be read or extracted.
#[derive(Debug)]
pub enum ArchiveError {
    PasswordRequired,
    InvalidPassword,
    UnsupportedFormat(String),
    Io(String),
    Zip(String),
    SizeLimitExceeded { max_mb: u64, actual_mb: u64 },
    FileCountExceeded { max: usize, actual: usize },
    Other(String),
}

/// Safety limits of an extraction.
#[derive(Debug)]
pub struct ExtractLimits {
    /// Most bytes over all extracted files.
    pub max_total_size: u64,
    /// Most entries.
    pub max_file_count: usize,
    /// Most bytes of one file.
    pub max_file_size: u64,
}

impl Default for ExtractLimits {
    /// 1 GiB in total, 10000 entries, 100 MiB per file.
    fn default() -> (l: ExtractLimits)
        ensures
            l.max_total_size == 1_073_741_824,
            l.max_file_count == 10_000,
            l.max_file_size == 104_857_600,
    {
        ExtractLimits { max_total_size: 1_073_741_824, max_file_count: 10_000, max_file_size: 104_857_600 }
    }
}

/// The name ends with one of the supported archive extensions: zip and
/// tar with its gzip, bzip2 and xz variants (7z and rar are not supported).
pub open spec fn archive_suffix(lower: Seq<char>) -> bool {
    ||| has_suffix(lower, ".zip"@)
    ||| tar_suffix(lower)
}

/// The name ends with a tar extension.
pub open spec fn tar_suffix(lower: Seq<char>) -> bool {
    ||| has_suffix(lower, ".tar"@)
    ||| has_suffix(lower, ".tar.gz"@)
    ||| has_suffix(lower, ".tgz"@)
    ||| has_suffix(lower, ".tar.bz2"@)
    ||| has_suffix(lower, ".tar.xz"@)
}

fn ends_with(s: &[char], suffix: &str) -> (b: bool)
    ensures
        b == has_suffix(s@, suffix@),
{
    let p = chars_of(suffix);
    ends_with_chars(s, p.as_slice())
}

/// Whether a lowercased file name has an archive extension.
pub fn has_archive_suffix(lower: &str) -> (b: bool)
    ensures
        b == archive_suffix(lower@),
{
    let l = chars_of(lower);
    ends_with(l.as_slice(), ".zip") || has_tar_suffix(lower)
}

/// Whether a lowercased file name has a tar extension.
pub fn has_tar_suffix(lower: &str) -> (b: bool)
    ensures
        b == tar_suffix(lower@),
{
    let l = chars_of(lower);
    ends_with(l.as_slice(), ".tar") || ends_with(l.as_slice(), ".tar.gz") || ends_with(l.as_slice(), ".tgz")
        || ends_with(l.as_slice(), ".tar.bz2") || ends_with(l.as_slice(), ".tar.xz")
}

/// Whether the file is an archive in a supported format (by its lowercased extension).
pub fn is_archive_file(filename: &str) -> (b: bool)
    ensures
        b == archive_suffix(lowercase(filename@)),
{
    let lower = to_lowercase(filename);
    has_archive_suffix(lower.as_str())
}

/// Whether the file is a tar archive, compressed or not.
pub fn is_tar_variant(filename: &str) -> (b: bool)
    ensures
        b == tar_suffix(lowercase(filename@)),
{
    let lower = to_lowercase(filename);
    has_tar_suffix(lower.as_str())
}

/// The format name shown for a lowercased file name.
pub open spec fn format_desc(lower: Seq<char>) -> Seq<char> {
    if has_suffix(lower, ".zip"@) {
        "ZIP"@
    } else if has_suffix(lower, ".7z"@) {
        "7Z"@
    } else if has_suffix(lower, ".tar"@) {
        "TAR"@
    } else if has_suffix(lower, ".tar.gz"@) || has_suffix(lower, ".tgz"@) {
        "TAR.GZ"@
    } else if has_suffix(lower, ".tar.bz2"@) {
        "TAR.BZ2"@
    } else if has_suffix(lower, ".tar.xz"@) {
        "TAR.XZ"@
    } else {
        "未知"@
    }
}

/// The format name shown for a lowercased file name.
pub fn format_desc_of_lower(lower: &str) -> (d: &'static str)
    ensures
        d@ == format_desc(lower@),
{
    let l = chars_of(lower);
    if ends_with(l.as_slice(), ".zip") {
        "ZIP"
    } else if ends_with(l.as_slice(), ".7z") {
        "7Z"
    } else if ends_with(l.as_slice(), ".tar") {
        "TAR"
    } else if ends_with(l.as_slice(), ".tar.gz") || ends_with(l.as_slice(), ".tgz") {
        "TAR.GZ"
    } else if ends_with(l.as_slice(), ".tar.bz2") {
        "TAR.BZ2"
    } else if ends_with(l.as_slice(), ".tar.xz") {
        "TAR.XZ"
    } else {
        "未知"
    }
}

/// The format name shown for a file name.
pub fn archive_format_desc(filename: &str) -> (d: &'static str)
    ensures
        d@ == format_desc(lowercase(filename@)),
{
    let lower = to_lowercase(filename);
    format_desc_of_lower(lower.as_str())
}

/// Compression of a tar archive.
#[derive(Debug, Clone, Copy, PartialEq, Eq, Structural)]
pub enum TarCompression {
    Plain,
    Gzip,
    Bzip2,
    Xz,
}

/// How an archive is read.
#[derive(Debug, Clone, Copy, PartialEq, Eq, Structural)]
pub enum ArchiveKind {
    Zip,
    Tar(TarCompression),
}

/// The decompressor a tar archive needs, by its lowercased path; `None` for no tar extension.
pub open spec fn tar_compression(lower: Seq<char>) -> Option<TarCompression> {
    if has_suffix(lower, ".tar"@) {
        Some(TarCompression::Plain)
    } else if has_suffix(lower, ".tar.gz"@) || has_suffix(lower, ".tgz"@) {
        Some(TarCompression::Gzip)
    } else if has_suffix(lower, ".tar.bz2"@) {
        Some(TarCompression::Bzip2)
    } else if has_suffix(lower, ".tar.xz"@) {
        Some(TarCompression::Xz)
    } else {
        None
    }
}

/// The decompressor for a lowercased tar path.
pub fn tar_compression_of_lower(lower: &str) -> (c: Option<TarCompression>)
    ensures
        c == tar_compression(lower@),
{
    let l = chars_of(lower);
    if ends_with(l.as_slice(), ".tar") {
        Some(TarCompression::Plain)
    } else if ends_with(l.as_slice(), ".tar.gz") || ends_with(l.as_slice(), ".tgz") {
        Some(TarCompression::Gzip)
    } else if ends_with(l.as_slice(), ".tar.bz2") {
        Some(TarCompression::Bzip2)
    } else if ends_with(l.as_slice(), ".tar.xz") {
        Some(TarCompression::Xz)
    } else {
        None
    }
}

pub const MSG_7Z_UNSUPPORTED: &'static str = "7Z 格式暂不支持";

pub const MSG_TAR_VARIANT: &'static str = "TAR 变体";

/// The reader an archive needs, decided on its lowercased file name (for the
/// format) and its lowercased path (for the tar compression); 7z and unknown
/// formats are refused.
pub open spec fn archive_plan(lower_name: Seq<char>, lower_path: Seq<char>) -> Result<ArchiveKind, Seq<char>> {
    if has_suffix(lower_name, ".zip"@) {
        Ok(ArchiveKind::Zip)
    } else if has_suffix(lower_name, ".7z"@) {
        Err(MSG_7Z_UNSUPPORTED@)
    } else if tar_suffix(lower_name) {
        match tar_compression(lower_path) {
            Some(c) => Ok(ArchiveKind::Tar(c)),
            None => Err(MSG_TAR_VARIANT@),
        }
    } else {
        Err(format_desc(lower_name))
    }
}

/// Chooses how to read an archive from its file name and path.
pub fn plan_archive(filename: &str, path: &str) -> (r: Result<ArchiveKind, ArchiveError>)
    ensures
        match archive_plan(lowercase(filename@), lowercase(path@)) {
            Ok(k) => r == Ok::<ArchiveKind, ArchiveError>(k),
            Err(m) => r matches Err(ArchiveError::UnsupportedFormat(s)) && s@ == m,
        },
{
    let lower = to_lowercase(filename);
    let l = chars_of(lower.as_str());
    if ends_with(l.as_slice(), ".zip") {
        Ok(ArchiveKind::Zip)
    } else if ends_with(l.as_slice(), ".7z") {
        Err(ArchiveError::UnsupportedFormat(String::from_str(MSG_7Z_UNSUPPORTED)))
    } else if has_tar_suffix(lower.as_str()) {
        let lp = to_lowercase(path);
        match tar_compression_of_lower(lp.as_str()) {
            Some(c) => Ok(ArchiveKind::Tar(c)),
            None => Err(ArchiveError::UnsupportedFormat(String::from_str(MSG_TAR_VARIANT))),
        }
    } else {
        Err(ArchiveError::UnsupportedFormat(String::from_str(format_desc_of_lower(lower.as_str()))))
    }
}

/// The checks before extraction: a file that is not an archive is refused
/// with its format name, and an archive gets the reader it needs.
pub fn plan_extraction(filename: &str, path: &str) -> (r: Result<ArchiveKind, ArchiveError>)
    ensures
        !archive_suffix(lowercase(filename@)) ==> (r matches Err(ArchiveError::UnsupportedFormat(s)) && s@
            == format_desc(lowercase(filename@))),
        archive_suffix(lowercase(filename@)) ==> match archive_plan(lowercase(filename@), lowercase(path@)) {
            Ok(k) => r == Ok::<ArchiveKind, ArchiveError>(k),
            Err(m) => r matches Err(ArchiveError::UnsupportedFormat(s)) && s@ == m,
        },
{
    if !is_archive_file(filename) {
        Err(ArchiveError::UnsupportedFormat(String::from_str(archive_format_desc(filename))))
    } else {
        plan_archive(filename, path)
    }
}

/// An entry name that could escape the target directory: it contains `..`
/// or starts with `/` or `\`.
pub open spec fn unsafe_entry_name(name: Seq<char>) -> bool {
    ||| contains_seq(name, ".."@)
    ||| (name.len() > 0 && name[0] == '/')
    ||| (name.len() > 0 && name[0] == '\\')
}

/// Whether an entry name could escape the target directory.
pub fn is_unsafe_entry_name(name: &str) -> (b: bool)
    ensures
        b == unsafe_entry_name(name@),
{
    let n = chars_of(name);
    let dots = chars_of("..");
    let found = find_chars(n.as_slice(), dots.as_slice());
    proof {
        if contains_seq(n@, dots@) {
            assert(first_occurrence(n@, dots@) is Some);
        }
    }
    found.is_some() || (n.len() > 0 && (n[0] == '/' || n[0] == '\\'))
}

/// Bytes in a mebibyte.
pub const MIB: u64 = 1_048_576;

/// Progress of an extraction: the entries taken so far and the bytes of the
/// files among them.
#[derive(Debug)]
pub struct ExtractState {
    pub entries: Vec<ArchiveEntry>,
    pub total_size: u64,
}

/// What to do with an entry that passed the rules.
#[derive(Debug, Clone, Copy, PartialEq, Eq, Structural)]
pub enum EntryDecision {
    /// The name is unsafe; the entry is passed over.
    Skip,
    /// Write the entry out; it has been recorded.
    Extract,
}

/// Sum of the sizes of the files (not directories) among the entries.
pub open spec fn file_bytes(entries: Seq<ArchiveEntry>) -> int
    decreases entries.len(),
{
    if entries.len() == 0 {
        0
    } else {
        file_bytes(entries.drop_last()) + if entries.last().is_directory {
            0
        } else {
            match entries.last().size {
                Some(s) => s as int,
                None => 0,
            }
        }
    }
}

/// The recorded entries respect the limits: no unsafe name, at most
/// `max_file_count` entries, no file over `max_file_size` bytes, and
/// `total_size` is their byte count, at most `max_total_size`.
pub open spec fn within_limits(st: ExtractState, limits: ExtractLimits) -> bool {
    &&& st.entries@.len() <= limits.max_file_count
    &&& st.total_size as int == file_bytes(st.entries@)
    &&& st.total_size <= limits.max_total_size
    &&& limits.max_file_size <= i64::MAX
    &&& forall|k: int|
        0 <= k < st.entries@.len() ==> {
            &&& !unsafe_entry_name((#[trigger] st.entries@[k]).entry_path@)
            &&& st.entries@[k].id is None
            &&& (st.entries@[k].size matches Some(s) && 0 <= s <= limits.max_file_size)
        }
}

impl ExtractState {
    /// Nothing extracted yet.
    pub fn new() -> (st: ExtractState)
        ensures
            st.entries@.len() == 0,
            st.total_size == 0,
    {
        ExtractState { entries: Vec::new(), total_size: 0 }
    }

    /// Applies the rules to the next entry of the archive, in this order: an
    /// unsafe name is skipped; a file over the size limit, or one that takes the
    /// total over its limit, stops the extraction; so does an entry beyond the
    /// count limit. Otherwise the entry is recorded and is to be written out.
    pub fn accept_entry(&mut self, limits: &ExtractLimits, file_id: i64, name: String, is_dir: bool, size: u64) -> (r: Result<EntryDecision, ArchiveError>)
        requires
            is_dir || old(self).total_size + size <= u64::MAX,
        ensures
            ({
                let old_st = *old(self);
                let new_total = if is_dir { old_st.total_size as int } else { old_st.total_size + size };
                if unsafe_entry_name(name@) {
                    r == Ok::<EntryDecision, ArchiveError>(EntryDecision::Skip) && *final(self) == old_st
                } else if !is_dir && size > limits.max_file_size {
                    r matches Err(ArchiveError::SizeLimitExceeded { max_mb, actual_mb })
                        && max_mb == limits.max_file_size / MIB && actual_mb == size / MIB
                } else if !is_dir && new_total > limits.max_total_size {
                    r matches Err(ArchiveError::SizeLimitExceeded { max_mb, actual_mb })
                        && max_mb == limits.max_total_size / MIB && actual_mb == new_total / (MIB as int)
                } else if old_st.entries@.len() >= limits.max_file_count {
                    r matches Err(ArchiveError::FileCountExceeded { max, actual })
                        && max == limits.max_file_count && actual == old_st.entries@.len()
                } else {
                    &&& r == Ok::<EntryDecision, ArchiveError>(EntryDecision::Extract)
                    &&& final(self).total_size == new_total
                    &&& final(self).entries@.len() == old_st.entries@.len() + 1
                    &&& final(self).entries@.drop_last() == old_st.entries@
                    &&& final(self).entries@.last() == (ArchiveEntry {
                        id: None,
                        file_id,
                        entry_path: name,
                        size: Some(size as i64),
                        is_directory: is_dir,
                    })
                }
            }),
    {
        if is_unsafe_entry_name(name.as_str()) {
            return Ok(EntryDecision::Skip);
        }
        if !is_dir {
            if size > limits.max_file_size {
                return Err(ArchiveError::SizeLimitExceeded {
                    max_mb: limits.max_file_size / MIB,
                    actual_mb: size / MIB,
                });
            }
            self.total_size = self.total_size + size;
            if self.total_size > limits.max_total_size {
                return Err(ArchiveError::SizeLimitExceeded {
                    max_mb: limits.max_total_size / MIB,
                    actual_mb: self.total_size / MIB,
                });
            }
        }
        if self.entries.len() >= limits.max_file_count {
            return Err(ArchiveError::FileCountExceeded { max: limits.max_file_count, actual: self.entries.len() });
        }
        self.entries.push(ArchiveEntry { id: None, file_id, entry_path: name, size: Some(size as i64), is_directory: is_dir });
        Ok(EntryDecision::Extract)
    }
}

/// Whatever the archive holds, an extraction that goes on entry by entry never
/// records an unsafe path, more entries than allowed, a file over the size
/// limit, or more bytes in total than allowed.
pub proof fn lemma_accept_keeps_limits(
    before: ExtractState,
    after: ExtractState,
    limits: ExtractLimits,
    file_id: i64,
    name: String,
    is_dir: bool,
    size: u64,
)
    requires
        within_limits(before, limits),
        !unsafe_entry_name(name@),
        is_dir || size <= limits.max_file_size,
        is_dir || before.total_size + size <= limits.max_total_size,
        before.entries@.len() < limits.max_file_count,
        after.total_size == if is_dir { before.total_size as int } else { before.total_size + size },
        after.entries@.len() == before.entries@.len() + 1,
        after.entries@.drop_last() == before.entries@,
        after.entries@.last() == (ArchiveEntry {
            id: None,
            file_id,
            entry_path: name,
            size: Some(size as i64),
            is_directory: is_dir,
        }),
        is_dir ==> size <= limits.max_file_size,
    ensures
        within_limits(after, limits),
{
    assert(size as i64 == size) by {
        assert(size <= limits.max_file_size);
    }
    assert forall|k: int| 0 <= k < after.entries@.len() implies {
        &&& !unsafe_entry_name((#[trigger] after.entries@[k]).entry_path@)
        &&& after.entries@[k].id is None
        &&& (after.entries@[k].size matches Some(s) && 0 <= s <= limits.max_file_size)
    } by {
        if k < before.entries@.len() {
            assert(after.entries@[k] == after.entries@.drop_last()[k]);
        }
    }
}

/// The directory an archive is extracted to: its file id under the archives directory.
pub fn archive_dir(archives_path: &str, file_id: i64) -> (p: String)
    ensures
        p@ == join_path(archives_path@, decimal_int(file_id as int)),
{
    let base = chars_of(archives_path);
    let mut out: Vec<char> = Vec::new();
    crate::text::extend_chars(&mut out, base.as_slice());
    if base.len() > 0 && base[base.len() - 1] != '/' {
        out.push('/');
    }
    let ghost mid = out@;
    push_i64(file_id, &mut out);
    proof {
        if base@.len() == 0 {
            assert(out@ =~= decimal_int(file_id as int));
        } else if base@.last() == '/' {
            assert(out@ =~= base@ + decimal_int(file_id as int));
        } else {
            assert(out@ =~= base@ + seq!['/'] + decimal_int(file_id as int));
        }
    }
    string_from_chars(out.as_slice())
}

} // verus!
