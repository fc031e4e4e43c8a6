//! The member names and the words of the API, told apart.

use vstd::prelude::*;

verus! {

/// No two of the member names and words that messages, requests, responses and events are made of
/// are the same text: each has its length, and those of one length differ in the letters given.
pub proof fn lemma_words_differ()
    ensures
        "id"@.len() == 2 && "id"@[0] == 'i',
        "ok"@.len() == 2 && "ok"@[0] == 'o',
        "{}"@.len() == 2 && "{}"@[0] == '{',
        "GET"@.len() == 3 && "GET"@[0] == 'G',
        "PUT"@.len() == 3 && "PUT"@[0] == 'P',
        "fc_"@.len() == 3 && "fc_"@[0] == 'f',
        "url"@.len() == 3 && "url"@[0] == 'u',
        "HEAD"@.len() == 4 && "HEAD"@[2] == 'A' && "HEAD"@[0] == 'H',
        "POST"@.len() == 4 && "POST"@[2] == 'S' && "POST"@[0] == 'P',
        "body"@.len() == 4 && "body"@[2] == 'd' && "body"@[0] == 'b',
        "data"@.len() == 4 && "data"@[2] == 't' && "data"@[0] == 'd',
        "enum"@.len() == 4 && "enum"@[2] == 'u' && "enum"@[0] == 'e',
        "item"@.len() == 4 && "item"@[2] == 'e' && "item"@[0] == 'i',
        "list"@.len() == 4 && "list"@[2] == 's' && "list"@[0] == 'l',
        "msg_"@.len() == 4 && "msg_"@[2] == 'g' && "msg_"@[0] == 'm',
        "name"@.len() == 4 && "name"@[2] == 'm' && "name"@[0] == 'n',
        "none"@.len() == 4 && "none"@[2] == 'n' && "none"@[0] == 'n',
        "part"@.len() == 4 && "part"@[2] == 'r' && "part"@[0] == 'p',
        "role"@.len() == 4 && "role"@[2] == 'l' && "role"@[0] == 'r',
        "stop"@.len() == 4 && "stop"@[2] == 'o' && "stop"@[0] == 's',
        "text"@.len() == 4 && "text"@[2] == 'x' && "text"@[0] == 't',
        "tool"@.len() == 4 && "tool"@[2] == 'o' && "tool"@[0] == 't',
        "true"@.len() == 4 && "true"@[2] == 'u' && "true"@[0] == 't',
        "type"@.len() == 4 && "type"@[2] == 'p' && "type"@[0] == 't',
        "user"@.len() == 4 && "user"@[2] == 'e' && "user"@[0] == 'u',
        "PATCH"@.len() == 5 && "PATCH"@[4] == 'H' && "PATCH"@[0] == 'P',
        "audio"@.len() == 5 && "audio"@[4] == 'o' && "audio"@[0] == 'a',
        "call_"@.len() == 5 && "call_"@[4] == '_' && "call_"@[0] == 'c',
        "delta"@.len() == 5 && "delta"@[4] == 'a' && "delta"@[0] == 'd',
        "error"@.len() == 5 && "error"@[4] == 'r' && "error"@[0] == 'e',
        "image"@.len() == 5 && "image"@[4] == 'e' && "image"@[0] == 'i',
        "index"@.len() == 5 && "index"@[4] == 'x' && "index"@[0] == 'i',
        "input"@.len() == 5 && "input"@[4] == 't' && "input"@[0] == 'i',
        "model"@.len() == 5 && "model"@[4] == 'l' && "model"@[0] == 'm',
        "resp_"@.len() == 5 && "resp_"@[4] == '_' && "resp_"@[0] == 'r',
        "tools"@.len() == 5 && "tools"@[4] == 's' && "tools"@[0] == 't',
        "top_p"@.len() == 5 && "top_p"@[4] == 'p' && "top_p"@[0] == 't',
        "usage"@.len() == 5 && "usage"@[4] == 'e' && "usage"@[0] == 'u',
        "video"@.len() == 5 && "video"@[4] == 'o' && "video"@[0] == 'v',
        "DELETE"@.len() == 6 && "DELETE"@[3] == 'E' && "DELETE"@[1] == 'E',
        "[DONE]"@.len() == 6 && "[DONE]"@[3] == 'N' && "[DONE]"@[1] == 'D',
        "effort"@.len() == 6 && "effort"@[3] == 'o' && "effort"@[1] == 'f',
        "length"@.len() == 6 && "length"@[3] == 'g' && "length"@[1] == 'e',
        "method"@.len() == 6 && "method"@[3] == 'h' && "method"@[1] == 'e',
        "object"@.len() == 6 && "object"@[3] == 'e' && "object"@[1] == 'b',
        "output"@.len() == 6 && "output"@[3] == 'p' && "output"@[1] == 'u',
        "reason"@.len() == 6 && "reason"@[3] == 's' && "reason"@[1] == 'e',
        "status"@.len() == 6 && "status"@[3] == 't' && "status"@[1] == 't',
        "stream"@.len() == 6 && "stream"@[3] == 'e' && "stream"@[1] == 't',
        "string"@.len() == 6 && "string"@[3] == 'i' && "string"@[1] == 't',
        "system"@.len() == 6 && "system"@[3] == 't' && "system"@[1] == 'y',
        "OPTIONS"@.len() == 7 && "OPTIONS"@[2] == 'T',
        "call_id"@.len() == 7 && "call_id"@[2] == 'l',
        "choices"@.len() == 7 && "choices"@[2] == 'o',
        "content"@.len() == 7 && "content"@[2] == 'n',
        "created"@.len() == 7 && "created"@[2] == 'e',
        "headers"@.len() == 7 && "headers"@[2] == 'a',
        "message"@.len() == 7 && "message"@[2] == 's',
        "refusal"@.len() == 7 && "refusal"@[2] == 'f',
        "function"@.len() == 8 && "function"@[3] == 'c',
        "messages"@.len() == 8 && "messages"@[3] == 's',
        "metadata"@.len() == 8 && "metadata"@[3] == 'a',
        "required"@.len() == 8 && "required"@[3] == 'u',
        "response"@.len() == 8 && "response"@[3] == 'p',
        "arguments"@.len() == 9 && "arguments"@[3] == 'u',
        "assistant"@.len() == 9 && "assistant"@[3] == 'i',
        "completed"@.len() == 9 && "completed"@[3] == 'p',
        "developer"@.len() == 9 && "developer"@[3] == 'e',
        "image_url"@.len() == 9 && "image_url"@[3] == 'g',
        "reasoning"@.len() == 9 && "reasoning"@[3] == 's',
        "web_fetch"@.len() == 9 && "web_fetch"@[3] == '_',
        "created_at"@.len() == 10 && "created_at"@[8] == 'a',
        "incomplete"@.len() == 10 && "incomplete"@[8] == 't',
        "input_text"@.len() == 10 && "input_text"@[8] == 'x',
        "max_tokens"@.len() == 10 && "max_tokens"@[8] == 'n',
        "parameters"@.len() == 10 && "parameters"@[8] == 'r',
        "properties"@.len() == 10 && "properties"@[8] == 'e',
        "tool_calls"@.len() == 10 && "tool_calls"@[8] == 'l',
        "annotations"@.len() == 11 && "annotations"@[2] == 'n',
        "description"@.len() == 11 && "description"@[2] == 's',
        "in_progress"@.len() == 11 && "in_progress"@[2] == '_',
        "input_image"@.len() == 11 && "input_image"@[2] == 'p',
        "output_text"@.len() == 11 && "output_text"@[2] == 't',
        "temperature"@.len() == 11 && "temperature"@[2] == 'm',
        "tool_choice"@.len() == 11 && "tool_choice"@[2] == 'o',
        "input_tokens"@.len() == 12 && "input_tokens"@[3] == 'u',
        "instructions"@.len() == 12 && "instructions"@[3] == 't',
        "output_index"@.len() == 12 && "output_index"@[3] == 'p',
        "tool_call_id"@.len() == 12 && "tool_call_id"@[3] == 'l',
        "total_tokens"@.len() == 12 && "total_tokens"@[3] == 'a',
        "cached_tokens"@.len() == 13 && "cached_tokens"@[3] == 'h',
        "content_index"@.len() == 13 && "content_index"@[3] == 't',
        "finish_reason"@.len() == 13 && "finish_reason"@[3] == 'i',
        "function_call"@.len() == 13 && "function_call"@[3] == 'c',
        "output_tokens"@.len() == 13 && "output_tokens"@[3] == 'p',
        "prompt_tokens"@.len() == 13 && "prompt_tokens"@[3] == 'm',
        "content_filter"@.len() == 14,
        "reasoning_split"@.len() == 15,
        "reasoning_effort"@.len() == 16 && "reasoning_effort"@[10] == 'e',
        "reasoning_tokens"@.len() == 16 && "reasoning_tokens"@[10] == 't',
        "response.created"@.len() == 16 && "response.created"@[10] == 'r',
        "completion_tokens"@.len() == 17 && "completion_tokens"@[0] == 'c',
        "max_output_tokens"@.len() == 17 && "max_output_tokens"@[0] == 'm',
        "reasoning_content"@.len() == 17 && "reasoning_content"@[0] == 'r',
        "incomplete_details"@.len() == 18 && "incomplete_details"@[0] == 'i',
        "response.completed"@.len() == 18 && "response.completed"@[0] == 'r',
        "parallel_tool_calls"@.len() == 19,
        "function_call_output"@.len() == 20 && "function_call_output"@[0] == 'f',
        "input_tokens_details"@.len() == 20 && "input_tokens_details"@[0] == 'i',
        "previous_response_id"@.len() == 20 && "previous_response_id"@[0] == 'p',
        "response.in_progress"@.len() == 20 && "response.in_progress"@[0] == 'r',
        "output_tokens_details"@.len() == 21 && "output_tokens_details"@[0] == 'o',
        "prompt_tokens_details"@.len() == 21 && "prompt_tokens_details"@[0] == 'p',
        "completion_tokens_details"@.len() == 25 && "completion_tokens_details"@[16] == 's',
        "response.output_item.done"@.len() == 25 && "response.output_item.done"@[16] == 'i',
        "response.output_text.done"@.len() == 25 && "response.output_text.done"@[16] == 't',
        "response.content_part.done"@.len() == 26 && "response.content_part.done"@[16] == '_',
        "response.output_item.added"@.len() == 26 && "response.output_item.added"@[16] == 'i',
        "response.output_text.delta"@.len() == 26 && "response.output_text.delta"@[16] == 't',
        "response.content_part.added"@.len() == 27,
        "response.function_call_arguments.done"@.len() == 37,
        "response.function_call_arguments.delta"@.len() == 38,
{
    reveal_strlit("id");
    reveal_strlit("ok");
    reveal_strlit("{}");
    reveal_strlit("GET");
    reveal_strlit("PUT");
    reveal_strlit("fc_");
    reveal_strlit("url");
    reveal_strlit("HEAD");
    reveal_strlit("POST");
    reveal_strlit("body");
    reveal_strlit("data");
    reveal_strlit("enum");
    reveal_strlit("item");
    reveal_strlit("list");
    reveal_strlit("msg_");
    reveal_strlit("name");
    reveal_strlit("none");
    reveal_strlit("part");
    reveal_strlit("role");
    reveal_strlit("stop");
    reveal_strlit("text");
    reveal_strlit("tool");
    reveal_strlit("true");
    reveal_strlit("type");
    reveal_strlit("user");
    reveal_strlit("PATCH");
    reveal_strlit("audio");
    reveal_strlit("call_");
    reveal_strlit("delta");
    reveal_strlit("error");
    reveal_strlit("image");
    reveal_strlit("index");
    reveal_strlit("input");
    reveal_strlit("model");
    reveal_strlit("resp_");
    reveal_strlit("tools");
    reveal_strlit("top_p");
    reveal_strlit("usage");
    reveal_strlit("video");
    reveal_strlit("DELETE");
    reveal_strlit("[DONE]");
    reveal_strlit("effort");
    reveal_strlit("length");
    reveal_strlit("method");
    reveal_strlit("object");
    reveal_strlit("output");
    reveal_strlit("reason");
    reveal_strlit("status");
    reveal_strlit("stream");
    reveal_strlit("string");
    reveal_strlit("system");
    reveal_strlit("OPTIONS");
    reveal_strlit("call_id");
    reveal_strlit("choices");
    reveal_strlit("content");
    reveal_strlit("created");
    reveal_strlit("headers");
    reveal_strlit("message");
    reveal_strlit("refusal");
    reveal_strlit("function");
    reveal_strlit("messages");
    reveal_strlit("metadata");
    reveal_strlit("required");
    reveal_strlit("response");
    reveal_strlit("arguments");
    reveal_strlit("assistant");
    reveal_strlit("completed");
    reveal_strlit("developer");
    reveal_strlit("image_url");
    reveal_strlit("reasoning");
    reveal_strlit("web_fetch");
    reveal_strlit("created_at");
    reveal_strlit("incomplete");
    reveal_strlit("input_text");
    reveal_strlit("max_tokens");
    reveal_strlit("parameters");
    reveal_strlit("properties");
    reveal_strlit("tool_calls");
    reveal_strlit("annotations");
    reveal_strlit("description");
    reveal_strlit("in_progress");
    reveal_strlit("input_image");
    reveal_strlit("output_text");
    reveal_strlit("temperature");
    reveal_strlit("tool_choice");
    reveal_strlit("input_tokens");
    reveal_strlit("instructions");
    reveal_strlit("output_index");
    reveal_strlit("tool_call_id");
    reveal_strlit("total_tokens");
    reveal_strlit("cached_tokens");
    reveal_strlit("content_index");
    reveal_strlit("finish_reason");
    reveal_strlit("function_call");
    reveal_strlit("output_tokens");
    reveal_strlit("prompt_tokens");
    reveal_strlit("content_filter");
    reveal_strlit("reasoning_split");
    reveal_strlit("reasoning_effort");
    reveal_strlit("reasoning_tokens");
    reveal_strlit("response.created");
    reveal_strlit("completion_tokens");
    reveal_strlit("max_output_tokens");
    reveal_strlit("reasoning_content");
    reveal_strlit("incomplete_details");
    reveal_strlit("response.completed");
    reveal_strlit("parallel_tool_calls");
    reveal_strlit("function_call_output");
    reveal_strlit("input_tokens_details");
    reveal_strlit("previous_response_id");
    reveal_strlit("response.in_progress");
    reveal_strlit("output_tokens_details");
    reveal_strlit("prompt_tokens_details");
    reveal_strlit("completion_tokens_details");
    reveal_strlit("response.output_item.done");
    reveal_strlit("response.output_text.done");
    reveal_strlit("response.content_part.done");
    reveal_strlit("response.output_item.added");
    reveal_strlit("response.output_text.delta");
    reveal_strlit("response.content_part.added");
    reveal_strlit("response.function_call_arguments.done");
    reveal_strlit("response.function_call_arguments.delta");
}

} // verus!
