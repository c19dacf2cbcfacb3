//! The request and response shapes of the HTTP layer and of the outbound
//! chat-completions client, together with the canonical JSON body the client
//! sends.  Optional sampling parameters are carried as already-rendered
//! decimal text so the body can be emitted verbatim.

use vstd::prelude::*;

use crate::kg_json::push_quoted;
use crate::kg_json::quoted;
use crate::text::dec_str;
use crate::text::push_char;
use crate::text::push_u64_dec;

verus! {

/// Model-selection parameters shared by all requests.
#[derive(Debug, Clone, PartialEq, Eq)]
pub struct OpenAiModelParams {
    pub model: String,
    pub max_tokens: u32,
    pub temperature: Option<String>,
    pub top_k: Option<String>,
    pub top_p: Option<String>,
}

/// An outbound chat-completions request: a prompt and the parameters.
#[derive(Debug, Clone, PartialEq, Eq)]
pub struct OpenAiRequest {
    pub prompt: String,
    pub params: OpenAiModelParams,
}

/// One choice of a chat-completions response.
#[derive(Debug, Clone, PartialEq, Eq)]
pub struct Choice {
    pub text: String,
}

/// The parsed shape of a chat-completions response.
#[derive(Debug, Clone, PartialEq, Eq)]
pub struct OpenAiResponse {
    pub choices: Vec<Choice>,
}

/// The ingest request body.
#[derive(Debug, Clone, PartialEq, Eq)]
pub struct ProcessChunkRequest {
    pub chunk: String,
    pub params: OpenAiModelParams,
}

/// The ingest response body.
#[derive(Debug, Clone, PartialEq, Eq)]
pub struct ProcessChunkResponse {
    pub is_success: bool,
    pub hash: [u8; 32],
    pub error_message: Option<String>,
}

/// The neighborhood-fetch request body.
#[derive(Debug, Clone, PartialEq, Eq)]
pub struct RetrieveKnowledgeRequest {
    pub node_indices: Vec<usize>,
    pub params: OpenAiModelParams,
}

/// The neighborhood-fetch response body; the graph data is carried as its
/// JSON document.
#[derive(Debug, Clone, PartialEq, Eq)]
pub struct RetrieveKnowledgeResponse {
    pub knowledge_graph_data: Option<String>,
    pub is_success: bool,
    pub error_message: Option<String>,
}

/// The related-chunks request body.
#[derive(Debug, Clone, PartialEq, Eq)]
pub struct RelatedKnowledgeRequest {
    pub chunk: String,
    pub num_queries: Option<u32>,
}

/// The related-chunks response body; the data is carried as its JSON
/// document.
#[derive(Debug, Clone, PartialEq, Eq)]
pub struct RelatedKnowledgeResponse {
    pub knowledge_graph_data: Option<String>,
    pub is_success: bool,
    pub error_message: Option<String>,
}

/// The grounded-answer request body.
#[derive(Debug, Clone, PartialEq, Eq)]
pub struct EnhancedLlmRequest {
    pub prompt: String,
    pub num_queries: Option<u32>,
    pub params: OpenAiModelParams,
}

/// The grounded-answer response body.
#[derive(Debug, Clone, PartialEq, Eq)]
pub struct EnhancedLlmResponse {
    pub response: Option<String>,
    pub is_success: bool,
    pub error_message: Option<String>,
}

impl ProcessChunkResponse {
    /// The successful ingest response: an all-zero hash and no error.
    pub fn success() -> (r: ProcessChunkResponse)
        ensures
            r.is_success,
            r.hash@ == Seq::<u8>::new(32, |i: int| 0u8),
            r.error_message is None,
    {
        let hash: [u8; 32] = [0u8; 32];
        proof {
            assert(hash@ =~= Seq::<u8>::new(32, |i: int| 0u8));
        }
        ProcessChunkResponse { is_success: true, hash, error_message: None }
    }
}

/// One chat message as the request body carries it.
pub open spec fn message_obj_json(content: Seq<char>, role: Seq<char>) -> Seq<char> {
    seq!['{'] + quoted("content"@) + seq![':'] + quoted(content) + seq![','] + quoted("role"@)
        + seq![':'] + quoted(role) + seq!['}']
}

/// An optional trailing entry of raw number text, keyed by `key`.
pub open spec fn opt_entry_json(key: Seq<char>, v: Option<Seq<char>>) -> Seq<char> {
    match v {
        None => Seq::empty(),
        Some(t) => seq![','] + quoted(key) + seq![':'] + t,
    }
}

/// The view of an optional string.
pub open spec fn opt_view(v: Option<String>) -> Option<Seq<char>> {
    match v {
        None => None,
        Some(s) => Some(s@),
    }
}

/// The canonical chat-completions body: a system message and the prompt as
/// the user message, with keys in lexicographic order.
pub open spec fn openai_body_json(r: OpenAiRequest) -> Seq<char> {
    seq!['{'] + quoted("max_tokens"@) + seq![':'] + dec_str(r.params.max_tokens as nat) + seq![',']
        + quoted("messages"@) + seq![':', '['] + message_obj_json(
        "You are an helpful digital assistant"@,
        "system"@,
    ) + seq![','] + message_obj_json(r.prompt@, "user"@) + seq![']', ','] + quoted("model"@)
        + seq![':'] + quoted(r.params.model@) + seq![','] + quoted("temperature"@) + seq![':'] + (
    match r.params.temperature {
        None => "null"@,
        Some(t) => t@,
    }) + opt_entry_json("top_k"@, opt_view(r.params.top_k)) + opt_entry_json(
        "top_p"@,
        opt_view(r.params.top_p),
    ) + seq!['}']
}

/// Appends one optional raw-number entry.
fn push_opt_entry(out: &mut String, key: &str, v: &Option<String>)
    ensures
        final(out)@ == old(out)@ + opt_entry_json(key@, opt_view(*v)),
{
    let ghost pre = out@;
    match v {
        None => {},
        Some(t) => {
            push_char(out, ',');
            push_quoted(out, key);
            push_char(out, ':');
            out.append(t.as_str());
            proof {
                assert(out@ =~= pre + opt_entry_json(key@, opt_view(*v)));
            }
        },
    }
}

/// Appends the temperature entry, `null` when unset.
fn push_temperature(out: &mut String, t: &Option<String>)
    ensures
        final(out)@ == old(out)@ + quoted("temperature"@) + seq![':'] + (match *t {
            None => "null"@,
            Some(s) => s@,
        }),
{
    let ghost pre = out@;
    push_quoted(out, "temperature");
    push_char(out, ':');
    match t {
        None => {
            out.append("null");
        },
        Some(s) => {
            out.append(s.as_str());
        },
    }
    proof {
        assert(out@ =~= pre + quoted("temperature"@) + seq![':'] + (match *t {
            None => "null"@,
            Some(s) => s@,
        }));
    }
}

impl OpenAiRequest {
    /// Serializes the request as the JSON body sent to the
    /// chat-completions endpoint.
    #[verifier::rlimit(100)]
    pub fn body_json(&self) -> (r: String)
        ensures
            r@ == openai_body_json(*self),
    {
        let mut out = String::new();
        push_char(&mut out, '{');
        push_quoted(&mut out, "max_tokens");
        push_char(&mut out, ':');
        push_u64_dec(&mut out, self.params.max_tokens as u64);
        push_char(&mut out, ',');
        push_quoted(&mut out, "messages");
        push_char(&mut out, ':');
        push_char(&mut out, '[');
        push_char(&mut out, '{');
        push_quoted(&mut out, "content");
        push_char(&mut out, ':');
        push_quoted(&mut out, "You are an helpful digital assistant");
        push_char(&mut out, ',');
        push_quoted(&mut out, "role");
        push_char(&mut out, ':');
        push_quoted(&mut out, "system");
        push_char(&mut out, '}');
        push_char(&mut out, ',');
        push_char(&mut out, '{');
        push_quoted(&mut out, "content");
        push_char(&mut out, ':');
        push_quoted(&mut out, self.prompt.as_str());
        push_char(&mut out, ',');
        push_quoted(&mut out, "role");
        push_char(&mut out, ':');
        push_quoted(&mut out, "user");
        push_char(&mut out, '}');
        push_char(&mut out, ']');
        push_char(&mut out, ',');
        proof {
            assert(out@ =~= seq!['{'] + quoted("max_tokens"@) + seq![':'] + dec_str(
                self.params.max_tokens as nat,
            ) + seq![','] + quoted("messages"@) + seq![':', '['] + message_obj_json(
                "You are an helpful digital assistant"@,
                "system"@,
            ) + seq![','] + message_obj_json(self.prompt@, "user"@) + seq![']', ',']);
        }
        let ghost mid = out@;
        push_quoted(&mut out, "model");
        push_char(&mut out, ':');
        push_quoted(&mut out, self.params.model.as_str());
        push_char(&mut out, ',');
        push_temperature(&mut out, &self.params.temperature);
        push_opt_entry(&mut out, "top_k", &self.params.top_k);
        push_opt_entry(&mut out, "top_p", &self.params.top_p);
        push_char(&mut out, '}');
        proof {
            assert(out@ =~= mid + (quoted("model"@) + seq![':'] + quoted(self.params.model@)
                + seq![','] + quoted("temperature"@) + seq![':'] + (match self.params.temperature {
                None => "null"@,
                Some(t) => t@,
            }) + opt_entry_json("top_k"@, opt_view(self.params.top_k)) + opt_entry_json(
                "top_p"@,
                opt_view(self.params.top_p),
            ) + seq!['}']));
            assert(out@ =~= openai_body_json(*self));
        }
        out
    }
}

/// The related-chunks payload: the chunk ids under the
/// `knowledge_graph_chunks` key.
pub open spec fn chunk_ids_json_from(ids: Seq<u32>, i: int) -> Seq<char>
    decreases ids.len() - i,
{
    if i < 0 || i >= ids.len() {
        Seq::empty()
    } else if i == 0 {
        dec_str(ids[0] as nat) + chunk_ids_json_from(ids, 1)
    } else {
        seq![','] + dec_str(ids[i] as nat) + chunk_ids_json_from(ids, i + 1)
    }
}

/// The full related-chunks data document.
pub open spec fn related_data_json(ids: Seq<u32>) -> Seq<char> {
    seq!['{'] + quoted("knowledge_graph_chunks"@) + seq![':', '['] + chunk_ids_json_from(ids, 0)
        + seq![']', '}']
}

/// Serializes the related-chunks payload.
pub fn related_knowledge_data(ids: &Vec<u32>) -> (r: String)
    ensures
        r@ == related_data_json(ids@),
{
    let mut out = String::new();
    push_char(&mut out, '{');
    push_quoted(&mut out, "knowledge_graph_chunks");
    push_char(&mut out, ':');
    push_char(&mut out, '[');
    let ghost pre = out@;
    let ghost iv = ids@;
    let mut i: usize = 0;
    while i < ids.len()
        invariant
            0 <= i <= ids.len(),
            iv == ids@,
            i == 0 ==> out@ =~= pre,
            i > 0 ==> out@ + chunk_ids_json_from(iv, i as int) =~= pre + chunk_ids_json_from(
                iv,
                0,
            ),
        decreases ids.len() - i,
    {
        let ghost o0 = out@;
        if i > 0 {
            push_char(&mut out, ',');
        }
        push_u64_dec(&mut out, ids[i] as u64);
        proof {
            if i == 0 {
                assert(out@ =~= o0 + dec_str(iv[0] as nat));
                assert(chunk_ids_json_from(iv, 0) == dec_str(iv[0] as nat) + chunk_ids_json_from(
                    iv,
                    1,
                ));
            } else {
                assert(out@ =~= o0 + (seq![','] + dec_str(iv[i as int] as nat)));
                assert(chunk_ids_json_from(iv, i as int) == seq![','] + dec_str(iv[i as int] as nat)
                    + chunk_ids_json_from(iv, i + 1));
            }
            assert(out@ + chunk_ids_json_from(iv, i + 1 as int) =~= pre + chunk_ids_json_from(
                iv,
                0,
            ));
        }
        i += 1;
    }
    proof {
        if iv.len() == 0 {
            assert(chunk_ids_json_from(iv, 0) =~= Seq::<char>::empty());
        } else {
            assert(chunk_ids_json_from(iv, iv.len() as int) =~= Seq::<char>::empty());
        }
        assert(out@ =~= pre + chunk_ids_json_from(iv, 0));
    }
    push_char(&mut out, ']');
    push_char(&mut out, '}');
    proof {
        assert(out@ =~= related_data_json(iv));
    }
    out
}

} // verus!
