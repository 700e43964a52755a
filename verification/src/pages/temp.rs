//! Temperature page: the throttling flags reported by `vcgencmd`.

use vstd::prelude::*;
use crate::textutil::{find_char, find_char_from, lemma_find_char_from, slice_chars, str_chars,
    string_of, trim, trim_chars};

verus! {

/// The field after the first `'='` of the trimmed output, up to the next
/// `'='`; `"n/a"` when the command failed or printed no `'='`.
pub open spec fn throttled_spec(out: Option<Seq<char>>) -> Seq<char> {
    match out {
        None => "n/a"@,
        Some(o) => {
            let t = trim(o);
            let k = find_char_from(t, '=', 0);
            if k >= t.len() {
                "n/a"@
            } else {
                t.subrange(k + 1, find_char_from(t, '=', k + 1))
            }
        },
    }
}

/// Throttling flags from the output of `vcgencmd get_throttled` (`None`
/// when the command failed).
pub fn throttled_text(out: Option<&str>) -> (r: String)
    ensures
        r@ == throttled_spec(match out {
            Some(o) => Some(o@),
            None => None,
        }),
{
    match out {
        None => "n/a".to_owned(),
        Some(o) => {
            let v = str_chars(o);
            let t = trim_chars(&v);
            let k = find_char(&t, '=', 0);
            if k >= t.len() {
                return "n/a".to_owned();
            }
            proof {
                lemma_find_char_from(t@, '=', k + 1);
            }
            let e = find_char(&t, '=', k + 1);
            string_of(&slice_chars(&t, k + 1, e))
        },
    }
}

} // verus!
