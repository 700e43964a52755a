//! CPU page: processor description from `/proc/cpuinfo`.

use vstd::prelude::*;
use crate::textutil::{
    lines, split_lines, starts_with, starts_with_str, slice_chars, str_chars, string_of, trim,
    trim_chars, views,
};

verus! {

/// The rest of the last line that starts with `prefix`.
pub open spec fn last_prefixed(ls: Seq<Seq<char>>, prefix: Seq<char>) -> Option<Seq<char>>
    decreases ls.len(),
{
    if ls.len() == 0 {
        None
    } else if starts_with(ls.last(), prefix) {
        Some(ls.last().skip(prefix.len() as int))
    } else {
        last_prefixed(ls.drop_last(), prefix)
    }
}

/// The trimmed value of the last line with `prefix`, or `default`.
pub open spec fn cpuinfo_field(ls: Seq<Seq<char>>, prefix: Seq<char>, default: Seq<char>) -> Seq<char> {
    match last_prefixed(ls, prefix) {
        Some(v) => trim(v),
        None => default,
    }
}

fn last_prefixed_exec(ls: &Vec<Vec<char>>, prefix: &str) -> (r: Option<Vec<char>>)
    ensures
        match r {
            Some(v) => last_prefixed(views(ls@), prefix@) == Some(v@),
            None => last_prefixed(views(ls@), prefix@) is None,
        },
{
    let ghost all = views(ls@);
    let p = str_chars(prefix);
    let mut found: Option<Vec<char>> = None;
    let mut i: usize = 0;
    assert(all.take(0) =~= Seq::<Seq<char>>::empty());
    while i < ls.len()
        invariant
            i <= ls@.len(),
            all == views(ls@),
            p@ == prefix@,
            match found {
                Some(v) => last_prefixed(all.take(i as int), prefix@) == Some(v@),
                None => last_prefixed(all.take(i as int), prefix@) is None,
            },
        decreases ls@.len() - i,
    {
        assert(all.take(i + 1).drop_last() =~= all.take(i as int));
        assert(all.take(i + 1).last() == ls@[i as int]@);
        let line = &ls[i];
        if starts_with_str(line, prefix) {
            let rest = slice_chars(line, p.len(), line.len());
            assert(rest@ =~= line@.skip(prefix@.len() as int));
            found = Some(rest);
        }
        i = i + 1;
    }
    assert(all.take(i as int) =~= all);
    found
}

/// Hardware and model names from `/proc/cpuinfo`: the trimmed values of
/// the last `Hardware` and `model name` lines, `"BCM2711"` and `"n/a"` when
/// absent.
pub fn parse_cpuinfo(text: &str) -> (r: (String, String))
    ensures
        r.0@ == cpuinfo_field(lines(text@), "Hardware\t: "@, "BCM2711"@),
        r.1@ == cpuinfo_field(lines(text@), "model name\t: "@, "n/a"@),
{
    let v = str_chars(text);
    let ls = split_lines(&v);
    let hardware = match last_prefixed_exec(&ls, "Hardware\t: ") {
        Some(h) => string_of(&trim_chars(&h)),
        None => "BCM2711".to_owned(),
    };
    let model = match last_prefixed_exec(&ls, "model name\t: ") {
        Some(m) => string_of(&trim_chars(&m)),
        None => "n/a".to_owned(),
    };
    (hardware, model)
}

} // verus!
