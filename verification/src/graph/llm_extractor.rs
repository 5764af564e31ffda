//! Graph extraction by a language model: the prompt it is given, the
//! cleanup of its answer, and the entities built from it.
use vstd::prelude::*;

use crate::config::{EnvSnapshot, LLMConfig};
use crate::graph::{Entity, EntityType};
use crate::text::{chars_of, extend_str, has_prefix, has_suffix, owned, slice_chars, starts_with_chars, ends_with_chars, string_from_chars, trim, trim_range, opt_str};

verus! {

/// The prompt up to the document information.
pub const PROMPT_HEAD: &'static str = "你是一个专业的知识图谱构建专家。请仔细阅读以下文本，从中提取实体和实体之间的关系，构建知识图谱。\n\n文档信息: ";

/// The prompt between the document information and the text.
pub const PROMPT_MID: &'static str = "\n\n文本内容:\n";

/// The prompt after the text: the task and the answer format.
pub const PROMPT_TAIL: &'static str = "\n\n## 任务要求\n\n### 1. 实体提取\n请识别文本中的所有重要实体，包括但不限于：\n- 人名、组织名、公司名\n- 技术名词、编程语言、框架、工具\n- 项目名称、产品名称\n- 地点、时间\n- 专业术语、概念\n- 其他你认为重要的实体\n\n对于每个实体，请自定义一个最合适的类型名称（用中文），如：\n- 人物、公司、技术、框架、编程语言、数据库、工具、项目、地点、时间段、概念、技能、职位 等\n\n### 2. 关系提取\n请识别实体之间的所有有意义的关系。关系类型请自定义（用中文），可以包括但不限于：\n- 任职于、工作于、属于\n- 使用、掌握、熟悉、精通\n- 负责、开发、设计、实现\n- 包含、组成、依赖\n- 位于、发生于\n- 关联、相关\n- 其他你认为合适的关系类型\n\n### 3. 输出要求\n\n请严格按照以下JSON格式输出，不要输出任何其他内容：\n\n```json\n{\n  \"entities\": [\n    {\n      \"name\": \"实体名称\",\n      \"type\": \"实体类型（自定义中文类型）\",\n      \"description\": \"简短描述（可选）\"\n    }\n  ],\n  \"relations\": [\n    {\n      \"source\": \"源实体名称\",\n      \"target\": \"目标实体名称\",\n      \"type\": \"关系类型（自定义中文类型）\",\n      \"description\": \"关系描述（可选）\"\n    }\n  ]\n}\n```\n\n### 4. 注意事项\n- 实体名称要准确，与文本中的表述一致\n- 关系的source和target必须是entities中存在的实体名称\n- 尽量提取所有有意义的实体和关系，不要遗漏\n- 避免提取过于笼统或无意义的实体（如\"系统\"、\"项目\"等太泛化的词）\n- 关系要基于文本内容，不要臆测\n- 只输出JSON，不要有任何其他文字\n\n请开始提取：";

/// The extraction prompt for a text and its document information.
pub fn build_extraction_prompt(text: &str, context: &str) -> (p: String)
    ensures
        p@ == PROMPT_HEAD@ + context@ + PROMPT_MID@ + text@ + PROMPT_TAIL@,
{
    let mut out: Vec<char> = Vec::new();
    extend_str(&mut out, PROMPT_HEAD);
    extend_str(&mut out, context);
    extend_str(&mut out, PROMPT_MID);
    extend_str(&mut out, text);
    extend_str(&mut out, PROMPT_TAIL);
    string_from_chars(out.as_slice())
}

/// A model answer without a surrounding Markdown code fence: trimmed, an
/// opening ```` ```json ```` or ```` ``` ```` removed, a closing ```` ``` ````
/// removed, and trimmed again.
pub open spec fn cleaned_json(content: Seq<char>) -> Seq<char> {
    let c = trim(content);
    let c = if has_prefix(c, "```json"@) {
        c.skip(7)
    } else if has_prefix(c, "```"@) {
        c.skip(3)
    } else {
        c
    };
    let c = if has_suffix(c, "```"@) { c.take(c.len() - 3) } else { c };
    trim(c)
}

/// Removes a Markdown code fence around a model's JSON answer.
pub fn clean_json_response(content: &str) -> (r: String)
    ensures
        r@ == cleaned_json(content@),
{
    proof {
        reveal_strlit("```json");
        reveal_strlit("```");
    }
    let all = chars_of(content);
    let (a, b) = trim_range(all.as_slice());
    let c = slice_chars(all.as_slice(), a, b);
    let fence_json = chars_of("```json");
    let fence = chars_of("```");
    let c2 = if starts_with_chars(c.as_slice(), fence_json.as_slice()) {
        slice_chars(c.as_slice(), 7, c.len())
    } else if starts_with_chars(c.as_slice(), fence.as_slice()) {
        slice_chars(c.as_slice(), 3, c.len())
    } else {
        c
    };
    let c3 = if ends_with_chars(c2.as_slice(), fence.as_slice()) {
        slice_chars(c2.as_slice(), 0, c2.len() - 3)
    } else {
        c2
    };
    let (x, y) = trim_range(c3.as_slice());
    let d = slice_chars(c3.as_slice(), x, y);
    string_from_chars(d.as_slice())
}

/// The entity for an extracted name and kind, with its description, when
/// the model gave one, as the `description` property.
pub fn entity_from_extraction(name: String, kind: String, description: Option<String>) -> (e: Entity)
    ensures
        e.wf(),
        e.name == name,
        e.entity_type == EntityType::Custom(kind),
        e.file_id.is_none() && e.kb_id.is_none(),
        e.props() == match description {
            Some(d) => Map::<Seq<char>, Seq<char>>::empty().insert("description"@, d@),
            None => Map::<Seq<char>, Seq<char>>::empty(),
        },
{
    let e = Entity::new(name, EntityType::Custom(kind));
    match description {
        Some(d) => {
            let key = owned("description");
            e.with_property(key, d)
        },
        None => e,
    }
}


/// A cleaned answer carries no white space at either end.
pub proof fn lemma_cleaned_is_trimmed(content: Seq<char>)
    ensures
        trim(cleaned_json(content)) == cleaned_json(content),
{
    let c = trim(content);
    let c = if has_prefix(c, "```json"@) {
        c.skip(7)
    } else if has_prefix(c, "```"@) {
        c.skip(3)
    } else {
        c
    };
    let c = if has_suffix(c, "```"@) { c.take(c.len() - 3) } else { c };
    crate::text::lemma_trim_idempotent(c);
}


/// The settings of graph extraction by a language model: where it is asked,
/// with which key and model, and whether it is enabled at all. The HTTP
/// client that asks it is the caller's.
#[derive(Debug)]
pub struct LLMGraphExtractor {
    pub api_url: String,
    pub api_key: Option<String>,
    pub model: String,
    pub enabled: bool,
}

impl LLMGraphExtractor {
    /// The extractor for a language-model configuration: enabled exactly
    /// when an address is configured; the address is empty otherwise.
    pub fn from_config(llm: &LLMConfig) -> (x: LLMGraphExtractor)
        ensures
            x.enabled == llm.api_url.is_some(),
            x.api_url@ == match opt_str(llm.api_url) {
                Some(u) => u,
                None => Seq::<char>::empty(),
            },
            opt_str(x.api_key) == opt_str(llm.api_key),
            x.model@ == llm.model@,
    {
        let enabled = llm.is_enabled();
        let api_url = match &llm.api_url {
            Some(u) => owned(u.as_str()),
            None => String::new(),
        };
        let api_key = match &llm.api_key {
            Some(k) => Some(owned(k.as_str())),
            None => None,
        };
        LLMGraphExtractor { api_url, api_key, model: owned(llm.model.as_str()), enabled }
    }

    /// The extractor configured by the environment (see `LLMConfig::from_env`).
    pub fn from_env(env: &EnvSnapshot) -> (x: LLMGraphExtractor)
        ensures
            x.enabled == crate::config::env_value(env.view_vars(), "LLM_API_URL"@) is Some,
    {
        let llm = LLMConfig::from_env(env);
        LLMGraphExtractor::from_config(&llm)
    }

    /// Whether extraction is enabled.
    pub fn is_enabled(&self) -> (b: bool)
        ensures
            b == self.enabled,
    {
        self.enabled
    }
}

} // verus!
