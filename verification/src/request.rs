//! The outbound request model: an editor context plus a user message,
//! assembled once and serialized as the JSON body of a streaming request.
//!
//! Each field maps to a fixed wire name (`current_root_path` to
//! `currentRootPath`, `message_type` to `msgType`, `max_original_line` to
//! `maxOrigLine`, and so on); the absent optional selection serializes as
//! `null`, never as an empty string.

use vstd::prelude::*;

use crate::json::{
    json_i32, json_string, json_string_array, spec_json_int, spec_json_string,
    spec_json_string_array,
};

verus! {

/// The kind of request being made: a free-form chat message or an inline
/// edit of the current selection.
#[derive(Clone, Copy, Debug, PartialEq, Eq, Structural)]
pub enum MessageType {
    Freeform,
    Edit,
}

/// The wire spelling of a message type, as carried in the `msgType` field.
pub open spec fn spec_wire_message_type(t: MessageType) -> Seq<char> {
    match t {
        MessageType::Freeform => seq!['f', 'r', 'e', 'e', 'f', 'o', 'r', 'm'],
        MessageType::Edit => seq!['e', 'd', 'i', 't'],
    }
}

/// The wire spelling of a message type.
pub fn wire_message_type(t: MessageType) -> (r: &'static str)
    ensures
        r@ == spec_wire_message_type(t),
{
    match t {
        MessageType::Freeform => {
            proof {
                reveal_strlit("freeform");
                assert("freeform"@ =~= seq!['f', 'r', 'e', 'e', 'f', 'o', 'r', 'm']);
            }
            "freeform"
        },
        MessageType::Edit => {
            proof {
                reveal_strlit("edit");
                assert("edit"@ =~= seq!['e', 'd', 'i', 't']);
            }
            "edit"
        },
    }
}

/// One outbound request: the user's message together with the editor context
/// it was written in. Immutable after construction; the code-block fields
/// start empty and are filled in by later collaborators.
pub struct UserRequest {
    pub message: String,
    pub current_root_path: String,
    pub current_file_name: String,
    pub current_file_contents: String,
    pub preceding_code: Vec<String>,
    pub suffix_code: Vec<String>,
    pub current_selection: Option<String>,
    pub copilot_code_blocks: Vec<String>,
    pub custom_code_blocks: Vec<String>,
    pub code_block_identifiers: Vec<String>,
    pub message_type: MessageType,
    pub max_original_line: i32,
}

/// The serialized body up to and including the `currentSelection` key.
pub open spec fn spec_json_pre_selection(req: UserRequest) -> Seq<char> {
    "{\"message\":"@ + spec_json_string(req.message@) + ",\"currentRootPath\":"@
        + spec_json_string(req.current_root_path@) + ",\"currentFileName\":"@ + spec_json_string(
        req.current_file_name@,
    ) + ",\"currentFileContents\":"@ + spec_json_string(req.current_file_contents@)
        + ",\"precedingCode\":"@ + spec_json_string_array(
        req.preceding_code@.map_values(|s: String| s@),
    ) + ",\"suffixCode\":"@ + spec_json_string_array(req.suffix_code@.map_values(|s: String| s@))
        + ",\"currentSelection\":"@
}

/// The serialized value of the optional selection: `null` when absent, a
/// JSON string (possibly empty) when present.
pub open spec fn spec_json_selection(sel: Option<String>) -> Seq<char> {
    match sel {
        Option::None => "null"@,
        Option::Some(s) => spec_json_string(s@),
    }
}

/// The full serialized request body, with every field under its wire name:
/// the part through the `currentSelection` key, the selection value, and the
/// remaining fields through the closing brace.
pub open spec fn spec_json_of(req: UserRequest) -> Seq<char> {
    spec_json_pre_selection(req) + spec_json_selection(req.current_selection)
        + ",\"copilotCodeBlocks\":"@ + spec_json_string_array(
        req.copilot_code_blocks@.map_values(|s: String| s@),
    ) + ",\"customCodeBlocks\":"@ + spec_json_string_array(
        req.custom_code_blocks@.map_values(|s: String| s@),
    ) + ",\"codeBlockIdentifiers\":"@ + spec_json_string_array(
        req.code_block_identifiers@.map_values(|s: String| s@),
    ) + ",\"msgType\":"@ + spec_json_string(spec_wire_message_type(req.message_type))
        + ",\"maxOrigLine\":"@ + spec_json_int(req.max_original_line as int) + "}"@
}

impl UserRequest {
    /// Assemble a request from the caller's message and editor context.
    ///
    /// Sequence parameters keep the caller's order verbatim; the code-block
    /// fields start empty; `max_original_line` takes the fresh value the
    /// caller drew from its integer source, once, at construction.
    pub fn new(
        message: String,
        current_root_path: String,
        current_file_name: String,
        current_file_contents: String,
        preceding_code: Vec<String>,
        suffix_code: Vec<String>,
        current_selection: Option<String>,
        message_type: MessageType,
        max_original_line: i32,
    ) -> (r: UserRequest)
        ensures
            r.message == message,
            r.current_root_path == current_root_path,
            r.current_file_name == current_file_name,
            r.current_file_contents == current_file_contents,
            r.preceding_code == preceding_code,
            r.suffix_code == suffix_code,
            r.current_selection == current_selection,
            r.copilot_code_blocks@ == Seq::<String>::empty(),
            r.custom_code_blocks@ == Seq::<String>::empty(),
            r.code_block_identifiers@ == Seq::<String>::empty(),
            r.message_type == message_type,
            r.max_original_line == max_original_line,
    {
        UserRequest {
            message,
            current_root_path,
            current_file_name,
            current_file_contents,
            preceding_code,
            suffix_code,
            current_selection,
            copilot_code_blocks: Vec::new(),
            custom_code_blocks: Vec::new(),
            code_block_identifiers: Vec::new(),
            message_type,
            max_original_line,
        }
    }

    /// Serialize the request as its JSON body, each field under its wire
    /// name, in declaration order.
    pub fn to_json_body(&self) -> (r: String)
        ensures
            r@ == spec_json_of(*self),
    {
        let mut out = String::new();
        out.append("{\"message\":");
        proof {
            assert(out@ =~= "{\"message\":"@);
        }
        let piece = json_string(self.message.as_str());
        out.append(piece.as_str());
        out.append(",\"currentRootPath\":");
        let piece = json_string(self.current_root_path.as_str());
        out.append(piece.as_str());
        out.append(",\"currentFileName\":");
        let piece = json_string(self.current_file_name.as_str());
        out.append(piece.as_str());
        out.append(",\"currentFileContents\":");
        let piece = json_string(self.current_file_contents.as_str());
        out.append(piece.as_str());
        out.append(",\"precedingCode\":");
        let piece = json_string_array(&self.preceding_code);
        out.append(piece.as_str());
        out.append(",\"suffixCode\":");
        let piece = json_string_array(&self.suffix_code);
        out.append(piece.as_str());
        out.append(",\"currentSelection\":");
        proof {
            assert(out@ == spec_json_pre_selection(*self));
        }
        match &self.current_selection {
            Some(s) => {
                let piece = json_string(s.as_str());
                out.append(piece.as_str());
            },
            None => {
                out.append("null");
            },
        }
        proof {
            assert(out@ == spec_json_pre_selection(*self) + spec_json_selection(
                self.current_selection,
            ));
        }
        out.append(",\"copilotCodeBlocks\":");
        let piece = json_string_array(&self.copilot_code_blocks);
        out.append(piece.as_str());
        out.append(",\"customCodeBlocks\":");
        let piece = json_string_array(&self.custom_code_blocks);
        out.append(piece.as_str());
        out.append(",\"codeBlockIdentifiers\":");
        let piece = json_string_array(&self.code_block_identifiers);
        out.append(piece.as_str());
        out.append(",\"msgType\":");
        let piece = json_string(wire_message_type(self.message_type));
        out.append(piece.as_str());
        out.append(",\"maxOrigLine\":");
        let piece = json_i32(self.max_original_line);
        out.append(piece.as_str());
        out.append("}");
        proof {
            assert(out@ == spec_json_of(*self));
        }
        out
    }
}

/// Absence of the optional selection is preserved through serialization: a
/// request without a selection serializes differently from the same request
/// with any present selection, the empty string included, because the value
/// under `currentSelection` is `null` rather than a quoted string.
pub proof fn lemma_selection_absence_distinct(a: UserRequest, b: UserRequest)
    requires
        a.current_selection is None,
        b.current_selection is Some,
        a.message == b.message,
        a.current_root_path == b.current_root_path,
        a.current_file_name == b.current_file_name,
        a.current_file_contents == b.current_file_contents,
        a.preceding_code == b.preceding_code,
        a.suffix_code == b.suffix_code,
        a.copilot_code_blocks == b.copilot_code_blocks,
        a.custom_code_blocks == b.custom_code_blocks,
        a.code_block_identifiers == b.code_block_identifiers,
        a.message_type == b.message_type,
        a.max_original_line == b.max_original_line,
    ensures
        spec_json_of(a) != spec_json_of(b),
{
    reveal_strlit("null");
    let p = spec_json_pre_selection(a);
    assert(spec_json_pre_selection(b) == p);
    let sa = spec_json_selection(a.current_selection);
    let sb = spec_json_selection(b.current_selection);
    assert(sa == "null"@);
    assert(sa.len() == 4 && sa[0] == 'n');
    assert(sb[0] == '"');
    let k = p.len() as int;
    assert(spec_json_of(a)[k] == 'n');
    assert(spec_json_of(b)[k] == '"');
    assert(spec_json_of(a) != spec_json_of(b));
}

} // verus!
