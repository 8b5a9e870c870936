//! Oversized tool output: what of it goes into the prompt, and where the rest
//! is kept.

use vstd::prelude::*;

use crate::digest::{stable_hash, stable_hash_spec};
use crate::json::{json_string, json_string_spec};
use crate::number::{decimal, decimal_spec};
use crate::paths::{path_join, path_join_spec};
use crate::text::{byte_len, byte_len_spec, chars_of, string_of};

verus! {

/// How many bytes of tool output are kept at most.
pub const MAX_RAW_TOOL_ARTIFACT_BYTES: usize = 67108864;

/// Why a tool's output is not kept.
#[derive(Debug, Clone, Copy, PartialEq, Eq, Structural)]
pub enum ToolOutputError {
    TooLarge,
    RevisionCollision,
}

impl ToolOutputError {
    pub open spec fn text(self) -> Seq<char> {
        match self {
            ToolOutputError::TooLarge => "tool output exceeds context-store artifact limit"@,
            ToolOutputError::RevisionCollision => "context-store revision collision"@,
        }
    }

    pub fn message(&self) -> (res: String)
        ensures
            res@ == self.text(),
    {
        match self {
            ToolOutputError::TooLarge =>
                "tool output exceeds context-store artifact limit".to_string(),
            ToolOutputError::RevisionCollision => "context-store revision collision".to_string(),
        }
    }
}

/// What goes into the prompt, and where the whole output is kept. The path is
/// empty where nothing had to be left out.
#[derive(Debug)]
pub struct StoredToolOutput {
    pub compact_content: String,
    pub raw_path: String,
    pub original_chars: usize,
    pub kept_chars: usize,
}

#[verifier::ext_equal]
pub struct StoredView {
    pub compact_content: Seq<char>,
    pub raw_path: Seq<char>,
    pub original_chars: nat,
    pub kept_chars: nat,
}

impl View for StoredToolOutput {
    type V = StoredView;

    open spec fn view(&self) -> StoredView {
        StoredView {
            compact_content: self.compact_content@,
            raw_path: self.raw_path@,
            original_chars: self.original_chars as nat,
            kept_chars: self.kept_chars as nat,
        }
    }
}

pub open spec fn stored_answer(r: Result<StoredToolOutput, ToolOutputError>) -> Result<
    StoredView,
    ToolOutputError,
> {
    match r {
        Ok(stored) => Ok(stored@),
        Err(e) => Err(e),
    }
}

pub open spec fn bytes_view(o: Option<Vec<u8>>) -> Option<Seq<u8>> {
    match o {
        Some(v) => Some(v@),
        None => None,
    }
}

/// The file that a tool's whole output is kept in, named by its content.
pub open spec fn raw_path_of(store_root: Seq<char>, content: Seq<char>) -> Seq<char> {
    path_join_spec(store_root, "tool-output-"@ + stable_hash_spec(content) + ".log"@)
}

/// The beginning of the output and a note on the rest.
pub open spec fn compacted(
    tool: Seq<char>,
    content: Seq<char>,
    max_chars: nat,
    raw_path: Seq<char>,
) -> Seq<char> {
    content.take(max_chars as int) + "\n\n{\"status\":\"TRUNCATED\",\"tool\":"@ + json_string_spec(
        tool,
    ) + ",\"original_chars\":"@ + decimal_spec(content.len()) + ",\"kept_chars\":"@ + decimal_spec(
        max_chars,
    ) + ",\"raw_ref\":"@ + json_string_spec(raw_path) + ",\"revision\":\""@ + stable_hash_spec(
        content,
    ) + "\"}"@
}

/// What becomes of a tool's output. `existing` is what stands in its file
/// already.
pub open spec fn stored_output(
    tool: Seq<char>,
    content: Seq<char>,
    max_chars: nat,
    store_root: Seq<char>,
    existing: Option<Seq<u8>>,
) -> Result<StoredView, ToolOutputError> {
    if byte_len_spec(content) > MAX_RAW_TOOL_ARTIFACT_BYTES {
        Err(ToolOutputError::TooLarge)
    } else if content.len() <= max_chars {
        Ok(
            StoredView {
                compact_content: content,
                raw_path: Seq::empty(),
                original_chars: content.len(),
                kept_chars: content.len(),
            },
        )
    } else if existing is Some && existing->0 != vstd::utf8::encode_utf8(content) {
        Err(ToolOutputError::RevisionCollision)
    } else {
        let raw_path = raw_path_of(store_root, content);
        Ok(
            StoredView {
                compact_content: compacted(tool, content, max_chars, raw_path),
                raw_path,
                original_chars: content.len(),
                kept_chars: max_chars,
            },
        )
    }
}

pub fn raw_output_path(store_root: &str, content: &str) -> (res: String)
    ensures
        res@ == raw_path_of(store_root@, content@),
{
    let name = "tool-output-".to_string().concat(stable_hash(content).as_str()).concat(".log");
    path_join(store_root, name.as_str())
}

fn same_bytes(a: &[u8], b: &[u8]) -> (res: bool)
    ensures
        res == (a@ == b@),
{
    if a.len() != b.len() {
        return false;
    }
    let mut i: usize = 0;
    while i < a.len()
        invariant
            a@.len() == b@.len(),
            i <= a@.len(),
            forall|k: int| 0 <= k < i ==> a@[k] == b@[k],
        decreases a@.len() - i,
    {
        if a[i] != b[i] {
            return false;
        }
        i += 1;
    }
    assert(a@ =~= b@);
    true
}

/// Decides what becomes of a tool's output, given what stands in its file. The
/// caller writes the whole output to `raw_path` where that is not empty and the
/// file is missing.
pub fn store_and_compact_tool_output(
    tool_name: &str,
    content: &str,
    max_chars: usize,
    store_root: &str,
    existing: &Option<Vec<u8>>,
) -> (res: Result<StoredToolOutput, ToolOutputError>)
    ensures
        stored_answer(res) == stored_output(
            tool_name@,
            content@,
            max_chars as nat,
            store_root@,
            bytes_view(*existing),
        ),
{
    if byte_len(content) > MAX_RAW_TOOL_ARTIFACT_BYTES {
        return Err(ToolOutputError::TooLarge);
    }
    let chars = chars_of(content);
    let original_chars = chars.len();
    if original_chars <= max_chars {
        let res = StoredToolOutput {
            compact_content: content.to_string(),
            raw_path: String::new(),
            original_chars,
            kept_chars: original_chars,
        };
        assert(res.raw_path@ =~= Seq::<char>::empty());
        return Ok(res);
    }
    if let Some(bytes) = existing {
        if !same_bytes(bytes.as_slice(), content.as_bytes()) {
            return Err(ToolOutputError::RevisionCollision);
        }
    }
    let raw_path = raw_output_path(store_root, content);
    let kept = string_of(&chars, 0, max_chars);
    assert(kept@ =~= content@.take(max_chars as int));
    let compact_content = kept.concat("\n\n{\"status\":\"TRUNCATED\",\"tool\":").concat(
        json_string(tool_name).as_str(),
    ).concat(",\"original_chars\":").concat(decimal(original_chars as u64).as_str()).concat(
        ",\"kept_chars\":",
    ).concat(decimal(max_chars as u64).as_str()).concat(",\"raw_ref\":").concat(
        json_string(raw_path.as_str()).as_str(),
    ).concat(",\"revision\":\"").concat(stable_hash(content).as_str()).concat("\"}");
    Ok(StoredToolOutput { compact_content, raw_path, original_chars, kept_chars: max_chars })
}

} // verus!
