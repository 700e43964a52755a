//! Disk page: the root filesystem from `/proc/mounts`.

use vstd::prelude::*;
use crate::textutil::{
    chars_eq_str, lines, matches_at, split_lines, split_words, starts_with, slice_chars,
    str_chars, string_of, views, words,
};

verus! {

/// `s` with every leading repetition of `p` removed (`trim_start_matches`).
pub open spec fn strip_all_prefix(s: Seq<char>, p: Seq<char>) -> Seq<char>
    decreases s.len(),
{
    if p.len() > 0 && starts_with(s, p) {
        strip_all_prefix(s.skip(p.len() as int), p)
    } else {
        s
    }
}

/// Device (without `/dev/`) and type of the first filesystem mounted on
/// `/`; `("mmcblk0", "ext4")` when none is listed.
pub open spec fn root_mount(ls: Seq<Seq<char>>) -> (Seq<char>, Seq<char>)
    decreases ls.len(),
{
    if ls.len() == 0 {
        ("mmcblk0"@, "ext4"@)
    } else {
        let cols = words(ls[0]);
        if cols.len() >= 3 && cols[1] == "/"@ {
            (strip_all_prefix(cols[0], "/dev/"@), cols[2])
        } else {
            root_mount(ls.drop_first())
        }
    }
}

fn strip_dev(v: &Vec<char>) -> (r: Vec<char>)
    ensures
        r@ == strip_all_prefix(v@, "/dev/"@),
{
    let p = str_chars("/dev/");
    proof {
        reveal_strlit("/dev/");
    }
    let mut i: usize = 0;
    assert(v@.skip(0) =~= v@);
    while matches_at(v, i, &p)
        invariant
            i <= v@.len(),
            p@ == "/dev/"@,
            p@.len() == 5,
            strip_all_prefix(v@.skip(i as int), "/dev/"@) == strip_all_prefix(v@, "/dev/"@),
        decreases v@.len() - i,
    {
        proof {
            reveal_strlit("/dev/");
            assert(v@.skip(i as int).subrange(0, 5) =~= v@.subrange(i as int, i + 5));
            assert(starts_with(v@.skip(i as int), "/dev/"@));
            assert(v@.skip(i as int).skip(5) =~= v@.skip(i + 5));
        }
        assert(i + 5 <= v.len());
        i = i + 5;
    }
    let r = slice_chars(v, i, v.len());
    assert(r@ =~= v@.skip(i as int));
    proof {
        reveal_strlit("/dev/");
        if starts_with(v@.skip(i as int), "/dev/"@) {
            assert(v@.skip(i as int).subrange(0, 5) =~= v@.subrange(i as int, i + 5));
        }
    }
    r
}

/// Root device and filesystem type from `/proc/mounts`.
pub fn parse_root_mount(text: &str) -> (r: (String, String))
    ensures
        (r.0@, r.1@) == root_mount(lines(text@)),
{
    let v = str_chars(text);
    let ls = split_lines(&v);
    let ghost all = views(ls@);
    let mut i: usize = 0;
    assert(all.skip(0) =~= all);
    while i < ls.len()
        invariant
            i <= ls@.len(),
            all == views(ls@),
            all == lines(text@),
            root_mount(all) == root_mount(all.skip(i as int)),
        decreases ls@.len() - i,
    {
        assert(all.skip(i as int)[0] == ls@[i as int]@);
        assert(all.skip(i as int).drop_first() =~= all.skip(i + 1));
        let cols = split_words(&ls[i]);
        if cols.len() >= 3 {
            assert(views(cols@)[1] == cols@[1]@);
            if chars_eq_str(&cols[1], "/") {
                assert(views(cols@)[0] == cols@[0]@);
                assert(views(cols@)[2] == cols@[2]@);
                let dev = strip_dev(&cols[0]);
                return (string_of(&dev), string_of(&cols[2]));
            }
        }
        i = i + 1;
    }
    assert(all.skip(i as int) =~= Seq::<Seq<char>>::empty());
    ("mmcblk0".to_owned(), "ext4".to_owned())
}

} // verus!
