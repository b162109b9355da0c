use vstd::prelude::*;
use crate::text::{chars_of, string_from_chars};

verus! {

/// The tag that every log line carries.
pub const LOG_TAG: &'static str = "[XC3-SD-Save-Loader] ";

/// A log line: the timestamp in brackets, a space, the tag, then the message.
pub open spec fn log_line_spec(ts: Seq<char>, message: Seq<char>) -> Seq<char> {
    seq!['['] + ts + seq![']', ' '] + LOG_TAG@ + message
}

/// Appends the characters of `src` to `out`.
fn push_str(out: &mut Vec<char>, src: &str)
    ensures
        final(out)@ == old(out)@ + src@,
{
    let chars = chars_of(src);
    let ghost start = out@;
    let mut i: usize = 0;
    while i < chars.len()
        invariant
            i <= chars.len(),
            chars@ == src@,
            out@ == start + chars@.subrange(0, i as int),
        decreases chars.len() - i,
    {
        out.push(chars[i]);
        i = i + 1;
        assert(out@ =~= start + chars@.subrange(0, i as int));
    }
    assert(chars@.subrange(0, i as int) =~= chars@);
}

/// Builds the log line for `message` stamped with `ts`.
pub fn format_log_line(ts: &str, message: &str) -> (r: String)
    ensures
        r@ == log_line_spec(ts@, message@),
{
    let mut out: Vec<char> = Vec::new();
    out.push('[');
    push_str(&mut out, ts);
    out.push(']');
    out.push(' ');
    push_str(&mut out, LOG_TAG);
    push_str(&mut out, message);
    assert(out@ =~= log_line_spec(ts@, message@));
    string_from_chars(&out)
}

} // verus!
