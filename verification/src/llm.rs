//! The model provider boundary: text in, text out, and what to tell a user
//! when it fails.

use vstd::prelude::*;

use crate::text::{chars_of, has_prefix, owned, push_str, same_chars, slice_chars, string_of, trim, trim_chars};

verus! {

/// One finished generation.
#[derive(Debug, Clone, PartialEq)]
pub struct LlmCompletion {
    pub text: String,
    /// The model that actually answered, as the provider reported it.
    pub model: String,
    pub input_tokens: Option<u32>,
    pub output_tokens: Option<u32>,
}

/// Which side of a conversation a turn came from.
#[derive(Debug, Clone, Copy, PartialEq, Eq, Structural)]
pub enum Speaker {
    Player,
    Coach,
}

/// One prior turn, sent with its role so a player cannot forge a coach turn.
#[derive(Debug, Clone, PartialEq)]
pub struct ChatTurn {
    pub speaker: Speaker,
    pub text: String,
}

/// Why a generation failed.
#[derive(Debug, Clone, PartialEq)]
pub enum LlmError {
    /// No API key: nothing was attempted.
    NotConfigured,
    Unavailable(String),
    RateLimited,
    Timeout,
    InvalidResponse(String),
}

pub open spec fn spec_llm_note(e: LlmError) -> Seq<char> {
    match e {
        LlmError::NotConfigured => "AI coaching is not configured on this server, so only the measured evidence is shown."@,
        LlmError::RateLimited => "The coaching model is rate limiting us. The measured evidence is unchanged."@,
        LlmError::Timeout => "The coaching model took too long to answer. Try again shortly."@,
        _ => "AI coaching is unavailable right now, so only the measured evidence is shown."@,
    }
}

impl LlmError {
    /// A short, user-safe explanation. It never carries the underlying cause.
    pub fn user_note(&self) -> (s: &'static str)
        ensures
            s@ == spec_llm_note(*self),
    {
        match self {
            LlmError::NotConfigured => "AI coaching is not configured on this server, so only the measured evidence is shown.",
            LlmError::RateLimited => "The coaching model is rate limiting us. The measured evidence is unchanged.",
            LlmError::Timeout => "The coaching model took too long to answer. Try again shortly.",
            _ => "AI coaching is unavailable right now, so only the measured evidence is shown.",
        }
    }
}

// ---------------------------------------------------------------------------
// Reassembling a streamed answer
// ---------------------------------------------------------------------------

pub const NO_FRAMES: &'static str = "the response carried no stream frames";

pub const OUT_OF_TOKENS: &'static str = "the model ran out of output tokens";

pub const EMPTY_COMPLETION: &'static str = "empty completion";

/// What one line of a server-sent-events body hands on: the trimmed text of
/// a `data:` line, unless it is empty or the `[DONE]` marker. Blank
/// separators, `event:` lines and `:` keep-alive comments carry nothing.
pub open spec fn line_payload(line: Seq<char>) -> Seq<Seq<char>> {
    let p = "data:"@;
    if p.len() <= line.len() && line.take(p.len() as int) == p {
        let d = trim(line.skip(p.len() as int));
        if d.len() == 0 || d == "[DONE]"@ {
            seq![]
        } else {
            seq![d]
        }
    } else {
        seq![]
    }
}

/// The payloads of `s` from index `i` on, `line` holding the part of the
/// current line already read.
pub open spec fn payloads_from(s: Seq<char>, i: int, line: Seq<char>) -> Seq<Seq<char>>
    decreases s.len() - i,
{
    if i >= s.len() {
        line_payload(line)
    } else if s[i] == '\n' {
        line_payload(line) + payloads_from(s, i + 1, seq![])
    } else {
        payloads_from(s, i + 1, line.push(s[i]))
    }
}

/// Every data payload of a stream body, in order.
pub open spec fn spec_stream_payloads(body: Seq<char>) -> Seq<Seq<char>> {
    payloads_from(body, 0, seq![])
}

pub open spec fn string_views(v: Seq<String>) -> Seq<Seq<char>> {
    v.map_values(|s: String| s@)
}

fn payload_of(line: &Vec<char>) -> (r: Option<String>)
    ensures
        match r {
            Some(p) => line_payload(line@) == seq![p@],
            None => line_payload(line@) == Seq::<Seq<char>>::empty(),
        },
{
    let prefix = chars_of("data:");
    if !has_prefix(line, &prefix) {
        return None;
    }
    let rest = slice_chars(line, prefix.len(), line.len());
    proof {
        assert(rest@ =~= line@.skip(prefix@.len() as int));
    }
    let d = trim_chars(&rest);
    let done = chars_of("[DONE]");
    if d.len() == 0 || same_chars(&d, &done) {
        return None;
    }
    Some(string_of(&d))
}

/// The data payloads of a server-sent-events body, in order.
pub fn stream_payloads(body: &str) -> (out: Vec<String>)
    ensures
        string_views(out@) == spec_stream_payloads(body@),
{
    let s = chars_of(body);
    let mut out: Vec<String> = Vec::new();
    let mut line: Vec<char> = Vec::new();
    let mut i: usize = 0;
    while i < s.len()
        invariant
            s@ == body@,
            i <= s@.len(),
            string_views(out@) + payloads_from(s@, i as int, line@) == spec_stream_payloads(body@),
        decreases s@.len() - i,
    {
        if s[i] == '\n' {
            let ghost before = out@;
            let ghost l = line@;
            match payload_of(&line) {
                Some(p) => {
                    out.push(p);
                },
                None => {},
            }
            proof {
                assert(string_views(out@) =~= string_views(before) + line_payload(l));
            }
            line = Vec::new();
            proof {
                assert(line@ =~= Seq::<char>::empty());
            }
        } else {
            line.push(s[i]);
        }
        i = i + 1;
    }
    let ghost before = out@;
    match payload_of(&line) {
        Some(p) => {
            out.push(p);
        },
        None => {},
    }
    proof {
        assert(string_views(out@) =~= string_views(before) + line_payload(line@));
    }
    out
}

/// The first choice of a frame.
#[derive(Debug, Clone, PartialEq)]
pub struct ChoiceReading {
    pub finish_reason: Option<String>,
    /// The `delta` object's text content: outer `None` when the frame has no
    /// `delta`, inner `None` when it has no text content.
    pub delta: Option<Option<String>>,
    /// The same for `message`, which a provider answering a stream request
    /// with one complete frame sends instead.
    pub message: Option<Option<String>>,
}

/// What one readable frame says.
#[derive(Debug, Clone, PartialEq)]
pub struct FrameReading {
    pub model: Option<String>,
    /// Prompt and completion token counts, when the frame carries a usage
    /// object that reads as one.
    pub usage: Option<(Option<u32>, Option<u32>)>,
    pub choice: Option<ChoiceReading>,
}

pub open spec fn opt_string(o: Option<String>) -> Option<Seq<char>> {
    match o {
        Some(s) => Some(s@),
        None => None,
    }
}

/// The text a frame adds: its `delta` content where it has a `delta`,
/// otherwise its `message` content.
pub open spec fn piece_of(f: FrameReading) -> Seq<char> {
    match f.choice {
        None => seq![],
        Some(c) => match (match c.delta {
            Some(d) => d,
            None => match c.message {
                Some(m) => m,
                None => None,
            },
        }) {
            Some(t) => t@,
            None => seq![],
        },
    }
}

/// The answer's text: every frame's piece, in order.
pub open spec fn content_of(frames: Seq<FrameReading>) -> Seq<char>
    decreases frames.len(),
{
    if frames.len() == 0 {
        seq![]
    } else {
        content_of(frames.drop_last()) + piece_of(frames.last())
    }
}

/// The first model any frame names.
pub open spec fn model_of(frames: Seq<FrameReading>) -> Option<Seq<char>>
    decreases frames.len(),
{
    if frames.len() == 0 {
        None
    } else {
        match model_of(frames.drop_last()) {
            Some(m) => Some(m),
            None => opt_string(frames.last().model),
        }
    }
}

/// The last finish reason any frame's choice gives.
pub open spec fn finish_of(frames: Seq<FrameReading>) -> Option<Seq<char>>
    decreases frames.len(),
{
    if frames.len() == 0 {
        None
    } else {
        match frames.last().choice {
            Some(c) => match c.finish_reason {
                Some(r) => Some(r@),
                None => finish_of(frames.drop_last()),
            },
            None => finish_of(frames.drop_last()),
        }
    }
}

/// The last prompt-token count any usage object gives.
pub open spec fn input_tokens_of(frames: Seq<FrameReading>) -> Option<u32>
    decreases frames.len(),
{
    if frames.len() == 0 {
        None
    } else {
        match frames.last().usage {
            Some((Some(n), _)) => Some(n),
            _ => input_tokens_of(frames.drop_last()),
        }
    }
}

/// The last completion-token count any usage object gives.
pub open spec fn output_tokens_of(frames: Seq<FrameReading>) -> Option<u32>
    decreases frames.len(),
{
    if frames.len() == 0 {
        None
    } else {
        match frames.last().usage {
            Some((_, Some(n))) => Some(n),
            _ => output_tokens_of(frames.drop_last()),
        }
    }
}

pub open spec fn is_invalid_response(r: Result<LlmCompletion, LlmError>, message: Seq<char>) -> bool {
    r matches Err(LlmError::InvalidResponse(m)) && m@ == message
}

/// Reassemble the answer from the readable frames of a stream, in order.
/// Tolerant about what it does not need, and strict about what it does: no
/// frames, a model that ran out of output tokens, or an answer that trims
/// to nothing is an invalid response, never an empty analysis.
pub fn assemble_completion(frames: &[FrameReading], fallback_model: &str) -> (r: Result<
    LlmCompletion,
    LlmError,
>)
    ensures
        frames@.len() == 0 ==> is_invalid_response(r, NO_FRAMES@),
        frames@.len() > 0 && finish_of(frames@) == Some("length"@) ==> is_invalid_response(
            r,
            OUT_OF_TOKENS@,
        ),
        frames@.len() > 0 && finish_of(frames@) != Some("length"@) && trim(content_of(frames@)).len()
            == 0 ==> is_invalid_response(r, EMPTY_COMPLETION@),
        frames@.len() > 0 && finish_of(frames@) != Some("length"@) && trim(content_of(frames@)).len()
            > 0 ==> (r matches Ok(c) && c.text@ == trim(content_of(frames@)) && c.model@ == (
        match model_of(frames@) {
            Some(m) => m,
            None => fallback_model@,
        }) && c.input_tokens == input_tokens_of(frames@) && c.output_tokens == output_tokens_of(
            frames@,
        )),
{
    if frames.len() == 0 {
        return Err(LlmError::InvalidResponse(owned(NO_FRAMES)));
    }
    let mut content = String::new();
    let mut finish: Option<String> = None;
    let mut model: Option<String> = None;
    let mut input_tokens: Option<u32> = None;
    let mut output_tokens: Option<u32> = None;
    let mut i: usize = 0;
    while i < frames.len()
        invariant
            i <= frames@.len(),
            content@ == content_of(frames@.take(i as int)),
            opt_string(finish) == finish_of(frames@.take(i as int)),
            opt_string(model) == model_of(frames@.take(i as int)),
            input_tokens == input_tokens_of(frames@.take(i as int)),
            output_tokens == output_tokens_of(frames@.take(i as int)),
        decreases frames@.len() - i,
    {
        let f = &frames[i];
        proof {
            assert(frames@.take(i + 1).drop_last() =~= frames@.take(i as int));
            assert(frames@.take(i + 1).last() == *f);
        }
        if model.is_none() {
            match &f.model {
                Some(m) => {
                    model = Some(m.clone());
                },
                None => {},
            }
        }
        match &f.usage {
            Some(u) => {
                match u.0 {
                    Some(n) => {
                        input_tokens = Some(n);
                    },
                    None => {},
                }
                match u.1 {
                    Some(n) => {
                        output_tokens = Some(n);
                    },
                    None => {},
                }
            },
            None => {},
        }
        match &f.choice {
            Some(c) => {
                match &c.finish_reason {
                    Some(reason) => {
                        finish = Some(reason.clone());
                    },
                    None => {},
                }
                let piece = match &c.delta {
                    Some(d) => d,
                    None => match &c.message {
                        Some(m) => m,
                        None => &None,
                    },
                };
                match piece {
                    Some(t) => push_str(&mut content, t.as_str()),
                    None => {
                        proof {
                            assert(content@ =~= content@ + Seq::<char>::empty());
                        }
                    },
                }
            },
            None => {
                proof {
                    assert(content@ =~= content@ + Seq::<char>::empty());
                }
            },
        }
        i = i + 1;
    }
    proof {
        assert(frames@.take(frames@.len() as int) =~= frames@);
    }
    let ran_out = match &finish {
        Some(reason) => crate::text::same_text(reason.as_str(), "length"),
        None => false,
    };
    if ran_out {
        return Err(LlmError::InvalidResponse(owned(OUT_OF_TOKENS)));
    }
    let trimmed = trim_chars(&chars_of(content.as_str()));
    if trimmed.len() == 0 {
        return Err(LlmError::InvalidResponse(owned(EMPTY_COMPLETION)));
    }
    let model = match model {
        Some(m) => m,
        None => owned(fallback_model),
    };
    Ok(LlmCompletion { text: string_of(&trimmed), model, input_tokens, output_tokens })
}

} // verus!
