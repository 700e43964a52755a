//! Metric text parsing: docker status abbreviation, `/proc` and `/sys`
//! file parsers, command-output interpretation and history buffers.
//!
//! Reading the files and running the commands is done by the caller; these
//! functions take the text that was read and return plain values.

use vstd::prelude::*;
use crate::config::IP_FILTER_ENABLED;
use crate::textutil::{
    lemma_find_char_from, contains_chars, contains_seq, is_digit, all_digits, dec_value, parse_u64_range, lines, parse_u64_chars, parse_u64_spec, split_lines, split_words, starts_with_str, views,
    words, chars_eq_str, dec_string, find_char, find_char_from, lower_chars, lower_seq, matches_at,
    parse_u32_range, parse_u32_spec, push_decimal, remove_all, remove_all_chars, skip_word,
    skip_word_exec, skip_ws, skip_ws_exec, slice_chars, starts_with, str_chars, string_of, trim,
    trim_chars, lemma_remove_all_append, lemma_remove_all_absent, lemma_remove_all_self, occurs_at,
};

verus! {

// ---------------------------------------------------------------------------
// Docker status abbreviation.
// ---------------------------------------------------------------------------

/// Unit suffix for a lower-cased docker duration unit word.
pub open spec fn unit_suffix(u: Seq<char>) -> Option<Seq<char>> {
    if starts_with(u, "second"@) {
        Some("s"@)
    } else if starts_with(u, "minute"@) {
        Some("m"@)
    } else if starts_with(u, "hour"@) {
        Some("h"@)
    } else if starts_with(u, "day"@) {
        Some("d"@)
    } else if starts_with(u, "week"@) {
        Some("w"@)
    } else if starts_with(u, "month"@) {
        Some("mo"@)
    } else if starts_with(u, "year"@) {
        Some("y"@)
    } else {
        None
    }
}

/// A docker duration fragment such as "45 seconds" or "3 hours ago": the first
/// whitespace-separated word is the number, the second word the unit.
pub open spec fn parse_duration_spec(t: Seq<char>) -> Option<(u32, Seq<char>)> {
    let a = skip_ws(t, 0);
    let b = skip_word(t, a);
    let c = skip_ws(t, b);
    let d = skip_word(t, c);
    if a == b || c == d {
        None
    } else {
        match parse_u32_spec(t.subrange(a, b)) {
            None => None,
            Some(n) => match unit_suffix(lower_seq(t.subrange(c, d))) {
                None => None,
                Some(u) => Some((n, u)),
            },
        }
    }
}

fn parse_duration_chars(t: &Vec<char>) -> (r: Option<(u32, &'static str)>)
    ensures
        match r {
            Some((n, u)) => parse_duration_spec(t@) == Some((n, u@)),
            None => parse_duration_spec(t@) is None,
        },
{
    let a = skip_ws_exec(t, 0);
    let b = skip_word_exec(t, a);
    let c = skip_ws_exec(t, b);
    let d = skip_word_exec(t, c);
    if a == b || c == d {
        return None;
    }
    let n = match parse_u32_range(t, a, b) {
        Some(n) => n,
        None => return None,
    };
    let unit = lower_chars(&slice_chars(t, c, d));
    let suffix: &'static str = if matches_at(&unit, 0, &str_chars("second")) {
        "s"
    } else if matches_at(&unit, 0, &str_chars("minute")) {
        "m"
    } else if matches_at(&unit, 0, &str_chars("hour")) {
        "h"
    } else if matches_at(&unit, 0, &str_chars("day")) {
        "d"
    } else if matches_at(&unit, 0, &str_chars("week")) {
        "w"
    } else if matches_at(&unit, 0, &str_chars("month")) {
        "mo"
    } else if matches_at(&unit, 0, &str_chars("year")) {
        "y"
    } else {
        return None;
    };
    Some((n, suffix))
}

/// Parse a docker duration fragment such as "45 seconds" or "3 hours ago".
/// Returns the numeric value and a one/two-letter unit suffix.
pub fn parse_duration(text: &str) -> (r: Option<(u32, &'static str)>)
    ensures
        match r {
            Some((n, u)) => parse_duration_spec(text@) == Some((n, u@)),
            None => parse_duration_spec(text@) is None,
        },
{
    parse_duration_chars(&str_chars(text))
}

/// Health suffixes removed from a docker status.
pub open spec fn strip_health(s: Seq<char>) -> Seq<char> {
    remove_all(
        remove_all(remove_all(remove_all(s, " (healthy)"@), "(healthy)"@), " (unhealthy)"@),
        "(unhealthy)"@,
    )
}

/// Number of leading `c` characters starting at `i`.
pub open spec fn skip_char(s: Seq<char>, c: char, i: int) -> int
    decreases s.len() - i,
{
    if 0 <= i < s.len() && s[i] == c {
        skip_char(s, c, i + 1)
    } else {
        i
    }
}

/// The "(code) <duration> ago" tail of an `Exited ` status.
pub open spec fn exited_spec(rest: Seq<char>) -> Option<Seq<char>> {
    let p = find_char_from(rest, ')', 0);
    if p >= rest.len() {
        None
    } else {
        let k = skip_char(rest, '(', 0);
        let q = find_char_from(rest, ')', k);
        let code = if q < rest.len() {
            rest.subrange(k, q)
        } else {
            "?"@
        };
        match parse_duration_spec(trim(rest.skip(p + 1))) {
            None => None,
            Some((n, u)) => Some("Ex"@ + code + " "@ + dec_string(n as nat) + u),
        }
    }
}

/// A `Restarting (code) <duration> ago` status.
pub open spec fn restarting_spec(s: Seq<char>) -> Option<Seq<char>> {
    let p = find_char_from(s, ')', 0);
    if p >= s.len() {
        None
    } else {
        match parse_duration_spec(trim(s.skip(p + 1))) {
            None => None,
            Some((n, u)) => Some("Rst "@ + dec_string(n as nat) + u),
        }
    }
}

/// The dashboard's abbreviation of a docker `Status` string.
pub open spec fn abbreviate_status_spec(status: Seq<char>) -> Seq<char> {
    let s = trim(strip_health(status));
    if s == "Created"@ {
        "New"@
    } else if s == "Paused"@ {
        "Paus"@
    } else if s == "Up About an hour"@ || s == "Up about an hour"@ {
        "1h"@
    } else if s == "Up Less than a second"@ || s == "Up less than a second"@ {
        "0s"@
    } else if starts_with(s, "Up "@) && parse_duration_spec(s.skip(3)) is Some {
        dec_string(parse_duration_spec(s.skip(3)).unwrap().0 as nat) + parse_duration_spec(
            s.skip(3),
        ).unwrap().1
    } else if starts_with(s, "Exited "@) && exited_spec(s.skip(7)) is Some {
        exited_spec(s.skip(7))->0
    } else if starts_with(s, "Restarting "@) && restarting_spec(s) is Some {
        restarting_spec(s)->0
    } else {
        s
    }
}

fn skip_char_exec(v: &Vec<char>, c: char, from: usize) -> (r: usize)
    requires
        from <= v.len(),
    ensures
        r as int == skip_char(v@, c, from as int),
        from <= r <= v.len(),
{
    let mut i = from;
    while i < v.len() && v[i] == c
        invariant
            from <= i <= v.len(),
            skip_char(v@, c, i as int) == skip_char(v@, c, from as int),
        decreases v.len() - i,
    {
        i = i + 1;
    }
    i
}

fn exited_tail(rest: &Vec<char>) -> (r: Option<Vec<char>>)
    ensures
        match r {
            Some(v) => exited_spec(rest@) == Some(v@),
            None => exited_spec(rest@) is None,
        },
{
    let p = find_char(rest, ')', 0);
    if p >= rest.len() {
        return None;
    }
    let k = skip_char_exec(rest, '(', 0);
    let q = find_char(rest, ')', k);
    let code = if q < rest.len() {
        slice_chars(rest, k, q)
    } else {
        str_chars("?")
    };
    let after = slice_chars(rest, p + 1, rest.len());
    assert(after@ =~= rest@.skip(p + 1));
    let after_t = trim_chars(&after);
    match parse_duration_chars(&after_t) {
        None => None,
        Some((n, u)) => {
            let mut out = str_chars("Ex");
            out.append(&mut code.clone());
            out.push(' ');
            let ghost before_num = out@;
            push_decimal(&mut out, n as u64);
            let uv = str_chars(u);
            let ghost before_unit = out@;
            out.append(&mut uv.clone());
            proof {
                reveal_strlit(" ");
                assert(" "@ =~= seq![' ']);
                assert(out@ =~= "Ex"@ + code@ + " "@ + dec_string(n as nat) + u@);
            }
            Some(out)
        },
    }
}

fn restarting_tail(s: &Vec<char>) -> (r: Option<Vec<char>>)
    ensures
        match r {
            Some(v) => restarting_spec(s@) == Some(v@),
            None => restarting_spec(s@) is None,
        },
{
    let p = find_char(s, ')', 0);
    if p >= s.len() {
        return None;
    }
    let after = slice_chars(s, p + 1, s.len());
    assert(after@ =~= s@.skip(p + 1));
    let after_t = trim_chars(&after);
    match parse_duration_chars(&after_t) {
        None => None,
        Some((n, u)) => {
            let mut out = str_chars("Rst ");
            push_decimal(&mut out, n as u64);
            let uv = str_chars(u);
            out.append(&mut uv.clone());
            proof {
                assert(out@ =~= "Rst "@ + dec_string(n as nat) + u@);
            }
            Some(out)
        },
    }
}

/// Abbreviate a docker `Status` string for the dashboard container list.
/// Parenthetical health suffixes `(healthy)` / `(unhealthy)` are stripped from
/// the returned text; callers should detect `(unhealthy)` separately for the
/// STATE column colour.
pub fn abbreviate_status(status: &str) -> (r: String)
    ensures
        r@ == abbreviate_status_spec(status@),
{
    let v = str_chars(status);
    let p1 = str_chars(" (healthy)");
    let p2 = str_chars("(healthy)");
    let p3 = str_chars(" (unhealthy)");
    let p4 = str_chars("(unhealthy)");
    proof {
        reveal_strlit(" (healthy)");
        reveal_strlit("(healthy)");
        reveal_strlit(" (unhealthy)");
        reveal_strlit("(unhealthy)");
    }
    let s1 = remove_all_chars(&v, &p1);
    let s2 = remove_all_chars(&s1, &p2);
    let s3 = remove_all_chars(&s2, &p3);
    let s4 = remove_all_chars(&s3, &p4);
    let s = trim_chars(&s4);
    if chars_eq_str(&s, "Created") {
        return "New".to_owned();
    }
    if chars_eq_str(&s, "Paused") {
        return "Paus".to_owned();
    }
    if chars_eq_str(&s, "Up About an hour") || chars_eq_str(&s, "Up about an hour") {
        return "1h".to_owned();
    }
    if chars_eq_str(&s, "Up Less than a second") || chars_eq_str(&s, "Up less than a second") {
        return "0s".to_owned();
    }
    let up = str_chars("Up ");
    if matches_at(&s, 0, &up) {
        proof {
            reveal_strlit("Up ");
        }
        let rest = slice_chars(&s, 3, s.len());
        assert(rest@ =~= s@.skip(3));
        if let Some((n, u)) = parse_duration_chars(&rest) {
            let mut out: Vec<char> = Vec::new();
            push_decimal(&mut out, n as u64);
            let uv = str_chars(u);
            out.append(&mut uv.clone());
            assert(out@ =~= dec_string(n as nat) + u@);
            return string_of(&out);
        }
    }
    let exited = str_chars("Exited ");
    if matches_at(&s, 0, &exited) {
        proof {
            reveal_strlit("Exited ");
        }
        let rest = slice_chars(&s, 7, s.len());
        assert(rest@ =~= s@.skip(7));
        if let Some(out) = exited_tail(&rest) {
            return string_of(&out);
        }
    }
    let restarting = str_chars("Restarting ");
    if matches_at(&s, 0, &restarting) {
        if let Some(out) = restarting_tail(&s) {
            return string_of(&out);
        }
    }
    string_of(&s)
}

// ---------------------------------------------------------------------------
// Counters from `/proc` and `/sys`.
// ---------------------------------------------------------------------------

/// `a + b` wrapping around at 2^64.
pub open spec fn wrap_add(a: u64, b: u64) -> u64 {
    if a + b > u64::MAX {
        (a + b - 0x1_0000_0000_0000_0000) as u64
    } else {
        (a + b) as u64
    }
}

pub fn wrapping_add_u64(a: u64, b: u64) -> (r: u64)
    ensures
        r == wrap_add(a, b),
{
    if a > u64::MAX - b {
        a - (u64::MAX - b) - 1
    } else {
        a + b
    }
}

/// `split_once(':')`: the text before and after the first `':'`.
pub open spec fn split_colon(line: Seq<char>) -> Option<(Seq<char>, Seq<char>)> {
    let k = find_char_from(line, ':', 0);
    if k >= line.len() {
        None
    } else {
        Some((line.subrange(0, k), line.subrange(k + 1, line.len() as int)))
    }
}

fn split_colon_exec(line: &Vec<char>) -> (r: Option<(Vec<char>, Vec<char>)>)
    ensures
        match r {
            Some((a, b)) => split_colon(line@) == Some((a@, b@)),
            None => split_colon(line@) is None,
        },
{
    let k = find_char(line, ':', 0);
    if k >= line.len() {
        return None;
    }
    Some((slice_chars(line, 0, k), slice_chars(line, k + 1, line.len())))
}

/// Interfaces left out of the network totals: loopback, docker bridges and
/// virtual ethernet pairs.
pub open spec fn skipped_iface(name: Seq<char>) -> bool {
    name == "lo"@ || starts_with(name, "docker"@) || starts_with(name, "veth"@) || starts_with(
        name,
        "br-"@,
    )
}

/// Received and transmitted bytes of one `/proc/net/dev` interface line.
pub open spec fn net_line(line: Seq<char>) -> Option<(u64, u64)> {
    match split_colon(line) {
        None => None,
        Some((name, rest)) => {
            let cols = words(rest);
            if skipped_iface(trim(name)) || cols.len() < 9 {
                None
            } else {
                match (parse_u64_spec(cols[0]), parse_u64_spec(cols[8])) {
                    (Some(r), Some(t)) => Some((r, t)),
                    _ => None,
                }
            }
        },
    }
}

/// Totals over interface lines, wrapping like release-mode integers.
pub open spec fn net_totals(ls: Seq<Seq<char>>) -> (u64, u64)
    decreases ls.len(),
{
    if ls.len() == 0 {
        (0, 0)
    } else {
        let (r, t) = net_totals(ls.drop_last());
        match net_line(ls.last()) {
            Some((a, b)) => (wrap_add(r, a), wrap_add(t, b)),
            None => (r, t),
        }
    }
}

/// The lines after the first `n`.
pub open spec fn after_lines(ls: Seq<Seq<char>>, n: int) -> Seq<Seq<char>> {
    if ls.len() <= n {
        Seq::empty()
    } else {
        ls.skip(n)
    }
}

/// Total received and transmitted bytes in `/proc/net/dev`, over the
/// physical interfaces (the two header lines skipped).
pub fn parse_net_dev(text: &str) -> (r: (u64, u64))
    ensures
        r == net_totals(after_lines(lines(text@), 2)),
{
    let v = str_chars(text);
    let ls = split_lines(&v);
    let ghost all = views(ls@);
    let ghost body = after_lines(all, 2);
    let mut rx: u64 = 0;
    let mut tx: u64 = 0;
    let mut i: usize = 2;
    if ls.len() <= 2 {
        assert(body =~= Seq::<Seq<char>>::empty());
        return (0, 0);
    }
    assert(body == all.skip(2));
    while i < ls.len()
        invariant
            2 <= i <= ls@.len(),
            all == views(ls@),
            all.len() > 2,
            body == all.skip(2),
            (rx, tx) == net_totals(body.take(i - 2)),
        decreases ls@.len() - i,
    {
        let line = &ls[i];
        assert(line@ == all[i as int]);
        assert(body.take(i - 2 + 1).drop_last() =~= body.take(i - 2));
        assert(body.take(i - 2 + 1).last() == line@);
        if let Some((name, rest)) = split_colon_exec(line) {
            let iname = trim_chars(&name);
            let skipped = chars_eq_str(&iname, "lo") || starts_with_str(&iname, "docker")
                || starts_with_str(&iname, "veth") || starts_with_str(&iname, "br-");
            proof {
                reveal_strlit("lo");
            }
            let cols = split_words(&rest);
            if !skipped && cols.len() >= 9 {
                assert(views(cols@)[0] == cols@[0]@);
                assert(views(cols@)[8] == cols@[8]@);
                let a = parse_u64_chars(&cols[0]);
                let b = parse_u64_chars(&cols[8]);
                if let (Some(r), Some(t)) = (a, b) {
                    rx = wrapping_add_u64(rx, r);
                    tx = wrapping_add_u64(tx, t);
                }
            }
        }
        i = i + 1;
    }
    assert(body.take(i - 2) =~= body);
    (rx, tx)
}

/// Result of one `/proc/diskstats` line for the primary block device:
/// `None` for other lines; for its line, the read and written sectors, or
/// `None` inside when they are not numbers.
pub open spec fn disk_line(line: Seq<char>) -> Option<Option<(u64, u64)>> {
    let cols = words(line);
    if cols.len() < 14 || cols[2] != "mmcblk0"@ {
        None
    } else {
        Some(
            match (parse_u64_spec(cols[5]), parse_u64_spec(cols[9])) {
                (Some(r), Some(w)) => Some((r, w)),
                _ => None,
            },
        )
    }
}

/// The first line about the primary block device decides.
pub open spec fn disk_sectors(ls: Seq<Seq<char>>) -> Option<(u64, u64)>
    decreases ls.len(),
{
    if ls.len() == 0 {
        None
    } else {
        match disk_line(ls[0]) {
            Some(x) => x,
            None => disk_sectors(ls.drop_first()),
        }
    }
}

/// Read and written sectors of `mmcblk0` in `/proc/diskstats`.
pub fn parse_diskstats(text: &str) -> (r: Option<(u64, u64)>)
    ensures
        r == disk_sectors(lines(text@)),
{
    let v = str_chars(text);
    let ls = split_lines(&v);
    let ghost all = views(ls@);
    let mut i: usize = 0;
    assert(all.skip(0) =~= all);
    while i < ls.len()
        invariant
            i <= ls@.len(),
            all == views(ls@),
            all == lines(text@),
            disk_sectors(all) == disk_sectors(all.skip(i as int)),
        decreases ls@.len() - i,
    {
        let line = &ls[i];
        assert(all.skip(i as int)[0] == line@);
        assert(all.skip(i as int).drop_first() =~= all.skip(i + 1));
        let cols = split_words(line);
        if cols.len() >= 14 {
            assert(views(cols@)[2] == cols@[2]@);
            if chars_eq_str(&cols[2], "mmcblk0") {
                assert(views(cols@)[5] == cols@[5]@);
                assert(views(cols@)[9] == cols@[9]@);
                let a = parse_u64_chars(&cols[5]);
                let b = parse_u64_chars(&cols[9]);
                let r = match (a, b) {
                    (Some(r), Some(w)) => Some((r, w)),
                    _ => None,
                };
                assert(disk_line(line@) == Some(r));
                assert(disk_sectors(all.skip(i as int)) == r);
                return r;
            }
        }
        i = i + 1;
    }
    assert(all.skip(i as int) =~= Seq::<Seq<char>>::empty());
    None
}

/// The value after `prefix` on the first line that starts with it.
pub open spec fn prefixed_value(ls: Seq<Seq<char>>, prefix: Seq<char>) -> Option<Seq<char>>
    decreases ls.len(),
{
    if ls.len() == 0 {
        None
    } else if starts_with(ls[0], prefix) {
        Some(ls[0].skip(prefix.len() as int))
    } else {
        prefixed_value(ls.drop_first(), prefix)
    }
}

/// CPU time in microseconds from a cgroup `cpu.stat` file: the
/// `usage_usec` line, if present and numeric.
pub fn parse_usage_usec(text: &str) -> (r: Option<u64>)
    ensures
        r == match prefixed_value(lines(text@), "usage_usec "@) {
            Some(v) => parse_u64_spec(v),
            None => None,
        },
{
    let v = str_chars(text);
    let ls = split_lines(&v);
    let ghost all = views(ls@);
    let prefix = str_chars("usage_usec ");
    let mut i: usize = 0;
    assert(all.skip(0) =~= all);
    while i < ls.len()
        invariant
            i <= ls@.len(),
            all == views(ls@),
            all == lines(text@),
            prefix@ == "usage_usec "@,
            prefixed_value(all, prefix@) == prefixed_value(all.skip(i as int), prefix@),
        decreases ls@.len() - i,
    {
        let line = &ls[i];
        assert(all.skip(i as int)[0] == line@);
        assert(all.skip(i as int).drop_first() =~= all.skip(i + 1));
        if matches_at(line, 0, &prefix) {
            let rest = slice_chars(line, prefix.len(), line.len());
            assert(rest@ =~= line@.skip(prefix@.len() as int));
            assert(prefixed_value(all.skip(i as int), prefix@) == Some(rest@));
            return parse_u64_chars(&rest);
        }
        i = i + 1;
    }
    assert(all.skip(i as int) =~= Seq::<Seq<char>>::empty());
    None
}

/// Key (trimmed text before `':'`) and value (first word after it as a
/// number, 0 when missing or not a number) of a `/proc/meminfo` line.
pub open spec fn mem_entry(line: Seq<char>) -> Option<(Seq<char>, u64)> {
    match split_colon(line) {
        None => None,
        Some((k, v)) => {
            let ws = words(v);
            let val = if ws.len() > 0 {
                match parse_u64_spec(ws[0]) {
                    Some(x) => x,
                    None => 0,
                }
            } else {
                0
            };
            Some((trim(k), val))
        },
    }
}

/// Value of the last line with key `key`.
pub open spec fn mem_lookup(ls: Seq<Seq<char>>, key: Seq<char>) -> Option<u64>
    decreases ls.len(),
{
    if ls.len() == 0 {
        None
    } else {
        match mem_entry(ls.last()) {
            Some((k, v)) => if k == key {
                Some(v)
            } else {
                mem_lookup(ls.drop_last(), key)
            },
            None => mem_lookup(ls.drop_last(), key),
        }
    }
}

/// Used and total memory in kB from `/proc/meminfo`: used is the total
/// less the available memory (`MemAvailable`, else `MemFree`, else 0),
/// never negative. `None` when the total is missing or 0.
pub open spec fn meminfo_spec(ls: Seq<Seq<char>>) -> Option<(u64, u64)> {
    let total = match mem_lookup(ls, "MemTotal"@) {
        Some(t) => t,
        None => 0,
    };
    if total == 0 {
        None
    } else {
        let avail = match mem_lookup(ls, "MemAvailable"@) {
            Some(a) => a,
            None => match mem_lookup(ls, "MemFree"@) {
                Some(f) => f,
                None => 0,
            },
        };
        Some((if total >= avail { (total - avail) as u64 } else { 0 }, total))
    }
}

/// Used and total memory (kB) from the text of `/proc/meminfo`.
pub fn parse_meminfo(text: &str) -> (r: Option<(u64, u64)>)
    ensures
        r == meminfo_spec(lines(text@)),
{
    let v = str_chars(text);
    let ls = split_lines(&v);
    let ghost all = views(ls@);
    let mut total: Option<u64> = None;
    let mut avail: Option<u64> = None;
    let mut free: Option<u64> = None;
    let mut i: usize = 0;
    assert(all.take(0) =~= Seq::<Seq<char>>::empty());
    while i < ls.len()
        invariant
            i <= ls@.len(),
            all == views(ls@),
            total == mem_lookup(all.take(i as int), "MemTotal"@),
            avail == mem_lookup(all.take(i as int), "MemAvailable"@),
            free == mem_lookup(all.take(i as int), "MemFree"@),
        decreases ls@.len() - i,
    {
        let line = &ls[i];
        assert(all.take(i + 1).drop_last() =~= all.take(i as int));
        assert(all.take(i + 1).last() == line@);
        if let Some((k, val_text)) = split_colon_exec(line) {
            let key = trim_chars(&k);
            let ws = split_words(&val_text);
            let val = if ws.len() > 0 {
                assert(views(ws@)[0] == ws@[0]@);
                match parse_u64_chars(&ws[0]) {
                    Some(x) => x,
                    None => 0,
                }
            } else {
                0
            };
            assert(mem_entry(line@) == Some((key@, val)));
            if chars_eq_str(&key, "MemTotal") {
                total = Some(val);
            }
            if chars_eq_str(&key, "MemAvailable") {
                avail = Some(val);
            }
            if chars_eq_str(&key, "MemFree") {
                free = Some(val);
            }
        }
        i = i + 1;
    }
    assert(all.take(i as int) =~= all);
    let t = match total {
        Some(t) => t,
        None => 0,
    };
    if t == 0 {
        return None;
    }
    let a = match avail {
        Some(a) => a,
        None => match free {
            Some(f) => f,
            None => 0,
        },
    };
    Some((t.saturating_sub(a), t))
}

/// `i64::from_str`: an optional sign and decimal digits within range.
pub open spec fn parse_i64_spec(s: Seq<char>) -> Option<i64> {
    if s.len() > 0 && s[0] == '-' {
        let d = s.skip(1);
        if d.len() == 0 || !all_digits(d) || dec_value(d) > 0x8000_0000_0000_0000 {
            None
        } else {
            Some((0 - dec_value(d)) as i64)
        }
    } else {
        match parse_u64_spec(s) {
            Some(x) => if x <= i64::MAX {
                Some(x as i64)
            } else {
                None
            },
            None => None,
        }
    }
}

pub fn parse_i64_chars(v: &Vec<char>) -> (r: Option<i64>)
    ensures
        r == parse_i64_spec(v@),
{
    if v.len() > 0 && v[0] == '-' {
        let ghost d = v@.skip(1);
        assert(d =~= v@.subrange(1, v@.len() as int));
        if v.len() > 1 && v[1] == '+' {
            assert(d[0] == '+' && !is_digit(d[0]));
            assert(!all_digits(d));
            return None;
        }
        match parse_u64_range(v, 1, v.len()) {
            None => None,
            Some(x) => {
                if x > 0x8000_0000_0000_0000u64 {
                    None
                } else if x == 0x8000_0000_0000_0000u64 {
                    Some(i64::MIN)
                } else {
                    Some(0i64 - (x as i64))
                }
            },
        }
    } else {
        let r = parse_u64_chars(v);
        match r {
            Some(x) => if x <= i64::MAX as u64 {
                Some(x as i64)
            } else {
                None
            },
            None => None,
        }
    }
}

/// Millidegrees from `/sys/class/thermal/.../temp`: the trimmed text as a
/// signed integer.
pub fn parse_millidegrees(text: &str) -> (r: Option<i64>)
    ensures
        r == parse_i64_spec(trim(text@)),
{
    let v = str_chars(text);
    let t = trim_chars(&v);
    parse_i64_chars(&t)
}

// ---------------------------------------------------------------------------
// CPU counters from `/proc/stat`.
// ---------------------------------------------------------------------------

/// The words that parse as `u64`, in order (the others are dropped).
pub open spec fn parsed_values(ws: Seq<Seq<char>>) -> Seq<u64>
    decreases ws.len(),
{
    if ws.len() == 0 {
        Seq::empty()
    } else {
        let tail = match parse_u64_spec(ws.last()) {
            Some(x) => seq![x],
            None => Seq::empty(),
        };
        parsed_values(ws.drop_last()) + tail
    }
}

/// Sum wrapping at 2^64.
pub open spec fn wrap_sum(vs: Seq<u64>) -> u64
    decreases vs.len(),
{
    if vs.len() == 0 {
        0
    } else {
        wrap_add(wrap_sum(vs.drop_last()), vs.last())
    }
}

/// Numbers among `ws[from..]` and their wrapping sum.
fn values_from(ws: &Vec<Vec<char>>, from: usize) -> (r: (Vec<u64>, u64))
    requires
        from <= ws@.len(),
    ensures
        r.0@ == parsed_values(views(ws@).skip(from as int)),
        r.1 == wrap_sum(r.0@),
{
    let ghost tail = views(ws@).skip(from as int);
    let mut vals: Vec<u64> = Vec::new();
    let mut sum: u64 = 0;
    let mut i = from;
    assert(tail.take(0) =~= Seq::<Seq<char>>::empty());
    while i < ws.len()
        invariant
            from <= i <= ws@.len(),
            tail == views(ws@).skip(from as int),
            vals@ == parsed_values(tail.take(i - from)),
            sum == wrap_sum(vals@),
        decreases ws@.len() - i,
    {
        assert(tail.take(i - from + 1).drop_last() =~= tail.take(i - from));
        assert(tail.take(i - from + 1).last() == ws@[i as int]@);
        match parse_u64_chars(&ws[i]) {
            Some(x) => {
                let ghost before = vals@;
                vals.push(x);
                assert(vals@.drop_last() =~= before);
                sum = wrapping_add_u64(sum, x);
                assert(before + seq![x] =~= vals@);
            },
            None => {
                assert(vals@ + Seq::<u64>::empty() =~= vals@);
            },
        }
        i = i + 1;
    }
    assert(tail.take(i - from) =~= tail);
    (vals, sum)
}

/// `(core, total, idle)` of a per-core `/proc/stat` line: a `cpuN` word
/// with at least four more words, at least five of them numbers; total is
/// the sum of the numbers, idle the fourth plus the fifth (idle + iowait).
pub open spec fn core_entry(line: Seq<char>) -> Option<(Seq<char>, u64, u64)> {
    let parts = words(line);
    if parts.len() < 5 {
        None
    } else {
        let core = parts[0];
        let vals = parsed_values(parts.skip(1));
        if core == "cpu"@ || core.len() < 3 || !all_digits(core.skip(3)) || vals.len() < 5 {
            None
        } else {
            Some((core, wrap_sum(vals), wrap_add(vals[3], vals[4])))
        }
    }
}

/// Per-core counters: the lines up to the first not starting with `cpu`.
pub open spec fn core_stats(ls: Seq<Seq<char>>) -> Seq<(Seq<char>, u64, u64)>
    decreases ls.len(),
{
    if ls.len() == 0 || !starts_with(ls[0], "cpu"@) {
        Seq::empty()
    } else {
        let head = match core_entry(ls[0]) {
            Some(e) => seq![e],
            None => Seq::empty(),
        };
        head + core_stats(ls.drop_first())
    }
}

pub open spec fn core_views(v: Seq<(String, u64, u64)>) -> Seq<(Seq<char>, u64, u64)> {
    v.map_values(|e: (String, u64, u64)| (e.0@, e.1, e.2))
}

fn all_digits_from(v: &Vec<char>, from: usize) -> (r: bool)
    requires
        from <= v@.len(),
    ensures
        r == all_digits(v@.skip(from as int)),
{
    let mut i = from;
    while i < v.len()
        invariant
            from <= i <= v@.len(),
            forall|k: int| from <= k < i ==> is_digit(#[trigger] v@[k]),
        decreases v@.len() - i,
    {
        if !('0' <= v[i] && v[i] <= '9') {
            assert(v@.skip(from as int)[i - from] == v@[i as int]);
            return false;
        }
        i = i + 1;
    }
    assert forall|k: int| 0 <= k < v@.skip(from as int).len() implies is_digit(
        #[trigger] v@.skip(from as int)[k],
    ) by {
        assert(v@.skip(from as int)[k] == v@[from + k]);
    }
    true
}

/// Per-core `(core, total, idle)` counters from `/proc/stat`, in file order.
pub fn parse_cpu_cores(text: &str) -> (r: Vec<(String, u64, u64)>)
    ensures
        core_views(r@) == core_stats(lines(text@)),
{
    let v = str_chars(text);
    let ls = split_lines(&v);
    let ghost all = views(ls@);
    let mut out: Vec<(String, u64, u64)> = Vec::new();
    let mut i: usize = 0;
    assert(all.skip(0) =~= all);
    while i < ls.len()
        invariant
            i <= ls@.len(),
            all == views(ls@),
            all == lines(text@),
            core_views(out@) + core_stats(all.skip(i as int)) == core_stats(all),
        decreases ls@.len() - i,
    {
        let line = &ls[i];
        assert(all.skip(i as int)[0] == line@);
        assert(all.skip(i as int).drop_first() =~= all.skip(i + 1));
        if !starts_with_str(line, "cpu") {
            assert(core_stats(all.skip(i as int)) == Seq::<(Seq<char>, u64, u64)>::empty());
            assert(core_views(out@) + Seq::<(Seq<char>, u64, u64)>::empty() =~= core_views(out@));
            return out;
        }
        let parts = split_words(line);
        let ghost ps = views(parts@);
        let mut entry: Option<(String, u64, u64)> = None;
        if parts.len() >= 5 {
            let core = &parts[0];
            assert(ps[0] == core@);
            let (vals, total) = values_from(&parts, 1);
            let is_aggregate = chars_eq_str(core, "cpu");
            if !is_aggregate && core.len() >= 3 && all_digits_from(core, 3) && vals.len() >= 5 {
                let idle = wrapping_add_u64(vals[3], vals[4]);
                entry = Some((string_of(core), total, idle));
            }
        }
        assert(entry matches Some(e) ==> core_entry(line@) == Some((e.0@, e.1, e.2)));
        assert(entry is None ==> core_entry(line@) is None);
        let ghost before = out@;
        match entry {
            Some(e) => {
                out.push(e);
                assert(core_views(out@) =~= core_views(before) + seq![(e.0@, e.1, e.2)]);
            },
            None => {},
        }
        proof {
            let head = match core_entry(line@) {
                Some(e) => seq![e],
                None => Seq::<(Seq<char>, u64, u64)>::empty(),
            };
            assert(core_stats(all.skip(i as int)) == head + core_stats(all.skip(i + 1)));
            assert(core_views(out@) =~= core_views(before) + head);
            assert(core_views(before) + (head + core_stats(all.skip(i + 1))) =~= (core_views(before)
                + head) + core_stats(all.skip(i + 1)));
        }
        i = i + 1;
    }
    assert(all.skip(i as int) =~= Seq::<Seq<char>>::empty());
    assert(core_views(out@) + Seq::<(Seq<char>, u64, u64)>::empty() =~= core_views(out@));
    out
}

/// The first line starting with `prefix`.
pub open spec fn first_line_with(ls: Seq<Seq<char>>, prefix: Seq<char>) -> Option<Seq<char>>
    decreases ls.len(),
{
    if ls.len() == 0 {
        None
    } else if starts_with(ls[0], prefix) {
        Some(ls[0])
    } else {
        first_line_with(ls.drop_first(), prefix)
    }
}

/// `(total, idle)` of the aggregate `cpu ` line: at least five words and
/// four numbers; idle is the fourth number plus the fifth (0 if absent).
pub open spec fn aggregate_entry(line: Seq<char>) -> Option<(u64, u64)> {
    let parts = words(line);
    let vals = parsed_values(parts.skip(1));
    if parts.len() < 5 || vals.len() < 4 {
        None
    } else {
        Some((wrap_sum(vals), wrap_add(vals[3], if vals.len() > 4 { vals[4] } else { 0 })))
    }
}

fn first_line_with_exec(ls: &Vec<Vec<char>>, prefix: &str) -> (r: Option<usize>)
    ensures
        match r {
            Some(i) => i < ls@.len() && first_line_with(views(ls@), prefix@) == Some(ls@[i as int]@),
            None => first_line_with(views(ls@), prefix@) is None,
        },
{
    let ghost all = views(ls@);
    let mut i: usize = 0;
    assert(all.skip(0) =~= all);
    while i < ls.len()
        invariant
            i <= ls@.len(),
            all == views(ls@),
            first_line_with(all, prefix@) == first_line_with(all.skip(i as int), prefix@),
        decreases ls@.len() - i,
    {
        assert(all.skip(i as int)[0] == ls@[i as int]@);
        assert(all.skip(i as int).drop_first() =~= all.skip(i + 1));
        if starts_with_str(&ls[i], prefix) {
            return Some(i);
        }
        i = i + 1;
    }
    assert(all.skip(i as int) =~= Seq::<Seq<char>>::empty());
    None
}

/// Total and idle jiffies of the aggregate `cpu ` line of `/proc/stat`.
pub fn parse_cpu_aggregate(text: &str) -> (r: Option<(u64, u64)>)
    ensures
        r == match first_line_with(lines(text@), "cpu "@) {
            Some(l) => aggregate_entry(l),
            None => None,
        },
{
    let v = str_chars(text);
    let ls = split_lines(&v);
    match first_line_with_exec(&ls, "cpu ") {
        None => None,
        Some(i) => {
            let parts = split_words(&ls[i]);
            if parts.len() < 5 {
                return None;
            }
            let (vals, total) = values_from(&parts, 1);
            if vals.len() < 4 {
                return None;
            }
            let extra = if vals.len() > 4 {
                vals[4]
            } else {
                0
            };
            Some((total, wrapping_add_u64(vals[3], extra)))
        },
    }
}

// ---------------------------------------------------------------------------
// Command output.
// ---------------------------------------------------------------------------

/// Fields of one `docker ps` line formatted as `name|id|status|state`; the
/// state is the rest of the line after the third `'|'`.
pub open spec fn docker_fields(line: Seq<char>) -> Option<(Seq<char>, Seq<char>, Seq<char>, Seq<char>)> {
    let k1 = find_char_from(line, '|', 0);
    let k2 = find_char_from(line, '|', k1 + 1);
    let k3 = find_char_from(line, '|', k2 + 1);
    if k1 >= line.len() || k2 >= line.len() || k3 >= line.len() {
        None
    } else {
        Some(
            (
                line.subrange(0, k1),
                line.subrange(k1 + 1, k2),
                line.subrange(k2 + 1, k3),
                line.subrange(k3 + 1, line.len() as int),
            ),
        )
    }
}

/// The containers listed by `docker ps`, in order; lines without four
/// fields are skipped.
pub open spec fn docker_rows(ls: Seq<Seq<char>>) -> Seq<(Seq<char>, Seq<char>, Seq<char>, Seq<char>)>
    decreases ls.len(),
{
    if ls.len() == 0 {
        Seq::empty()
    } else {
        let tail = match docker_fields(ls.last()) {
            Some(f) => seq![f],
            None => Seq::empty(),
        };
        docker_rows(ls.drop_last()) + tail
    }
}

/// A container as listed by `docker ps`.
pub struct DockerRow {
    pub name: String,
    pub id: String,
    pub status: String,
    pub state: String,
}

pub open spec fn row_views(v: Seq<DockerRow>) -> Seq<(Seq<char>, Seq<char>, Seq<char>, Seq<char>)> {
    v.map_values(|r: DockerRow| (r.name@, r.id@, r.status@, r.state@))
}

fn docker_line(line: &Vec<char>) -> (r: Option<DockerRow>)
    ensures
        match r {
            Some(row) => docker_fields(line@) == Some((row.name@, row.id@, row.status@, row.state@)),
            None => docker_fields(line@) is None,
        },
{
    proof {
        lemma_find_char_from(line@, '|', 0);
    }
    let k1 = find_char(line, '|', 0);
    if k1 >= line.len() {
        return None;
    }
    proof {
        lemma_find_char_from(line@, '|', k1 + 1);
    }
    let k2 = find_char(line, '|', k1 + 1);
    if k2 >= line.len() {
        return None;
    }
    proof {
        lemma_find_char_from(line@, '|', k2 + 1);
    }
    let k3 = find_char(line, '|', k2 + 1);
    if k3 >= line.len() {
        return None;
    }
    Some(
        DockerRow {
            name: string_of(&slice_chars(line, 0, k1)),
            id: string_of(&slice_chars(line, k1 + 1, k2)),
            status: string_of(&slice_chars(line, k2 + 1, k3)),
            state: string_of(&slice_chars(line, k3 + 1, line.len())),
        },
    )
}

/// Containers from the output of
/// `docker ps -a --no-trunc --format '{{.Names}}|{{.ID}}|{{.Status}}|{{.State}}'`.
pub fn parse_docker_ps(out: &str) -> (r: Vec<DockerRow>)
    ensures
        row_views(r@) == docker_rows(lines(out@)),
{
    let v = str_chars(out);
    let ls = split_lines(&v);
    let ghost all = views(ls@);
    let mut rows: Vec<DockerRow> = Vec::new();
    let mut i: usize = 0;
    assert(all.take(0) =~= Seq::<Seq<char>>::empty());
    while i < ls.len()
        invariant
            i <= ls@.len(),
            all == views(ls@),
            row_views(rows@) == docker_rows(all.take(i as int)),
        decreases ls@.len() - i,
    {
        assert(all.take(i + 1).drop_last() =~= all.take(i as int));
        assert(all.take(i + 1).last() == ls@[i as int]@);
        let ghost before = rows@;
        match docker_line(&ls[i]) {
            Some(row) => {
                let ghost f = (row.name@, row.id@, row.status@, row.state@);
                rows.push(row);
                assert(row_views(rows@) =~= row_views(before) + seq![f]);
            },
            None => {
                assert(row_views(rows@) + Seq::empty() =~= row_views(rows@));
            },
        }
        i = i + 1;
    }
    assert(all.take(i as int) =~= all);
    rows
}

/// Whether an address is listed: not loopback and, with the address
/// filter on, on one of the 192., 10. or 100. networks.
pub open spec fn keep_ip(w: Seq<char>) -> bool {
    &&& !starts_with(w, "127."@)
    &&& (!IP_FILTER_ENABLED || starts_with(w, "192."@) || starts_with(w, "10."@) || starts_with(
        w,
        "100."@,
    ))
}

pub open spec fn kept_ips(ws: Seq<Seq<char>>) -> Seq<Seq<char>>
    decreases ws.len(),
{
    if ws.len() == 0 {
        Seq::empty()
    } else {
        let tail = if keep_ip(ws.last()) {
            seq![ws.last()]
        } else {
            Seq::empty()
        };
        kept_ips(ws.drop_last()) + tail
    }
}

/// Addresses shown for the output of `hostname -I`: the kept words, or
/// `"No IP"` alone when none is kept.
pub open spec fn ip_list_spec(out: Seq<char>) -> Seq<Seq<char>> {
    let ks = kept_ips(words(out));
    if ks.len() == 0 {
        seq!["No IP"@]
    } else {
        ks
    }
}

pub open spec fn string_views(v: Seq<String>) -> Seq<Seq<char>> {
    v.map_values(|s: String| s@)
}

/// Addresses from the output of `hostname -I` (see `ip_list_spec`).
pub fn filter_ips(out: &str) -> (r: Vec<String>)
    ensures
        string_views(r@) == ip_list_spec(out@),
{
    let v = str_chars(out);
    let ws = split_words(&v);
    let ghost all = views(ws@);
    let mut ips: Vec<String> = Vec::new();
    let mut i: usize = 0;
    assert(all.take(0) =~= Seq::<Seq<char>>::empty());
    while i < ws.len()
        invariant
            i <= ws@.len(),
            all == views(ws@),
            string_views(ips@) == kept_ips(all.take(i as int)),
        decreases ws@.len() - i,
    {
        assert(all.take(i + 1).drop_last() =~= all.take(i as int));
        assert(all.take(i + 1).last() == ws@[i as int]@);
        let w = &ws[i];
        let keep = !starts_with_str(w, "127.") && (!IP_FILTER_ENABLED || starts_with_str(w, "192.")
            || starts_with_str(w, "10.") || starts_with_str(w, "100."));
        let ghost before = ips@;
        if keep {
            ips.push(string_of(w));
            assert(string_views(ips@) =~= string_views(before) + seq![w@]);
        } else {
            assert(string_views(ips@) + Seq::empty() =~= string_views(ips@));
        }
        i = i + 1;
    }
    assert(all.take(i as int) =~= all);
    if ips.len() == 0 {
        let mut none: Vec<String> = Vec::new();
        none.push("No IP".to_owned());
        assert(string_views(none@) =~= seq!["No IP"@]);
        return none;
    }
    ips
}

/// Tailscale state shown for the output of `tailscale status --json`
/// (`None` when the command failed): `"ON"` while the backend runs.
pub fn tailscale_state(out: Option<&str>) -> (r: &'static str)
    ensures
        r@ == match out {
            Some(o) => if contains_seq(o@, "\"BackendState\": \"Running\""@) {
                "ON"@
            } else {
                "OFF"@
            },
            None => "OFF"@,
        },
{
    match out {
        Some(o) => {
            let v = str_chars(o);
            let pat = str_chars("\"BackendState\": \"Running\"");
            if contains_chars(&v, &pat) {
                "ON"
            } else {
                "OFF"
            }
        },
        None => "OFF",
    }
}

/// `s` without its trailing `c` characters (`trim_end_matches(c)`).
pub open spec fn trim_end_char(s: Seq<char>, c: char) -> Seq<char>
    decreases s.len(),
{
    if s.len() > 0 && s.last() == c {
        trim_end_char(s.drop_last(), c)
    } else {
        s
    }
}

/// The usage figure in the output of `df --output=pcent /`: the second
/// line, trimmed, without its trailing `'%'`; the caller reads the number.
pub fn df_percent_text(out: &str) -> (r: Option<String>)
    ensures
        r matches Some(t) ==> lines(out@).len() > 1 && t@ == trim_end_char(trim(lines(out@)[1]), '%'),
        r is None ==> lines(out@).len() <= 1,
{
    let v = str_chars(out);
    let ls = split_lines(&v);
    if ls.len() <= 1 {
        return None;
    }
    assert(views(ls@)[1] == ls@[1]@);
    let t = trim_chars(&ls[1]);
    let mut end = t.len();
    assert(t@.take(end as int) =~= t@);
    while end > 0 && t[end - 1] == '%'
        invariant
            end <= t@.len(),
            trim_end_char(t@.take(end as int), '%') == trim_end_char(t@, '%'),
        decreases end,
    {
        assert(t@.take(end as int).drop_last() =~= t@.take(end - 1));
        end = end - 1;
    }
    assert(t@.take(end as int) =~= t@.subrange(0, end as int));
    let r = slice_chars(&t, 0, end);
    assert(trim_end_char(t@.take(end as int), '%') == t@.take(end as int));
    Some(string_of(&r))
}

/// Value of the key `key` in `/proc/meminfo` (the last line with it).
pub fn meminfo_value(text: &str, key: &str) -> (r: Option<u64>)
    ensures
        r == mem_lookup(lines(text@), key@),
{
    let v = str_chars(text);
    let ls = split_lines(&v);
    let ghost all = views(ls@);
    let mut found: Option<u64> = None;
    let mut i: usize = 0;
    assert(all.take(0) =~= Seq::<Seq<char>>::empty());
    while i < ls.len()
        invariant
            i <= ls@.len(),
            all == views(ls@),
            found == mem_lookup(all.take(i as int), key@),
        decreases ls@.len() - i,
    {
        let line = &ls[i];
        assert(all.take(i + 1).drop_last() =~= all.take(i as int));
        assert(all.take(i + 1).last() == line@);
        if let Some((k, val_text)) = split_colon_exec(line) {
            let kt = trim_chars(&k);
            if chars_eq_str(&kt, key) {
                let ws = split_words(&val_text);
                let val = if ws.len() > 0 {
                    assert(views(ws@)[0] == ws@[0]@);
                    match parse_u64_chars(&ws[0]) {
                        Some(x) => x,
                        None => 0,
                    }
                } else {
                    0
                };
                found = Some(val);
            }
        }
        i = i + 1;
    }
    assert(all.take(i as int) =~= all);
    found
}

/// Words joined by single spaces.
pub open spec fn joined_words(ws: Seq<Seq<char>>) -> Seq<char>
    decreases ws.len(),
{
    if ws.len() == 0 {
        Seq::empty()
    } else if ws.len() == 1 {
        ws[0]
    } else {
        joined_words(ws.drop_last()) + seq![' '] + ws.last()
    }
}

/// The first `n` words of `text` joined by single spaces (the load
/// averages shown from `/proc/loadavg`).
pub fn first_words(text: &str, n: usize) -> (r: String)
    ensures
        r@ == joined_words(if words(text@).len() <= n {
            words(text@)
        } else {
            words(text@).take(n as int)
        }),
{
    let v = str_chars(text);
    let ws = split_words(&v);
    let ghost all = views(ws@);
    let m = if ws.len() <= n {
        ws.len()
    } else {
        n
    };
    let mut out: Vec<char> = Vec::new();
    let mut i: usize = 0;
    assert(all.take(0) =~= Seq::<Seq<char>>::empty());
    while i < m
        invariant
            i <= m <= ws@.len(),
            all == views(ws@),
            out@ == joined_words(all.take(i as int)),
        decreases m - i,
    {
        assert(all.take(i + 1).drop_last() =~= all.take(i as int));
        assert(all.take(i + 1).last() == ws@[i as int]@);
        if i > 0 {
            out.push(' ');
        }
        let w = &ws[i];
        let mut k: usize = 0;
        let ghost start = out@;
        while k < w.len()
            invariant
                k <= w@.len(),
                out@ == start + w@.take(k as int),
            decreases w@.len() - k,
        {
            out.push(w[k]);
            k = k + 1;
            assert(w@.take(k as int) =~= w@.take(k - 1).push(w@[k - 1]));
            assert(out@ =~= start + w@.take(k as int));
        }
        assert(w@.take(w@.len() as int) =~= w@);
        proof {
            if i == 0 {
                assert(all.take(1) =~= seq![w@]);
                assert(start =~= Seq::<char>::empty());
                assert(out@ =~= w@);
            }
        }
        i = i + 1;
    }
    proof {
        if ws.len() <= n {
            assert(all.take(m as int) =~= all);
        }
    }
    string_of(&out)
}


/// A health suffix never changes the abbreviation: `(healthy)` and
/// `(unhealthy)` after the status are dropped (callers look for
/// `(unhealthy)` themselves to colour the state).
pub proof fn law_health_suffix_ignored(s: Seq<char>)
    ensures
        abbreviate_status_spec(s + " (healthy)"@) == abbreviate_status_spec(s),
        abbreviate_status_spec(s + " (unhealthy)"@) == abbreviate_status_spec(s),
{
    let p1 = " (healthy)"@;
    let p2 = "(healthy)"@;
    let p3 = " (unhealthy)"@;
    let p4 = "(unhealthy)"@;
    reveal_strlit(" (healthy)");
    reveal_strlit("(healthy)");
    reveal_strlit(" (unhealthy)");
    reveal_strlit("(unhealthy)");
    assert(p1.len() == 10 && p2.len() == 9 && p3.len() == 12 && p4.len() == 11);
    assert forall|k: int| 0 < k < p1.len() implies p1[k] != ' ' by {}
    assert forall|k: int| 0 < k < p2.len() implies p2[k] != ' ' by {}
    assert forall|k: int| 0 < k < p3.len() implies p3[k] != ' ' by {}
    // The healthy suffix goes in the first pass and leaves nothing behind.
    lemma_remove_all_append(s, p1, p1);
    lemma_remove_all_self(p1);
    let r1 = remove_all(s, p1);
    assert(remove_all(s + p1, p1) =~= r1);
    assert(strip_health(s + p1) == strip_health(s));
    // The unhealthy suffix survives the first two passes and goes in the
    // third.
    assert forall|i: int| 0 <= i < p3.len() implies !occurs_at(p3, i, p1) by {
        if occurs_at(p3, i, p1) {
            if i == 0 {
                assert(p3.subrange(0, 10)[2] == p1[2]);
            } else if i == 1 {
                assert(p3.subrange(1, 11)[0] == p1[0]);
            } else {
                assert(p3.subrange(2, 12)[0] == p1[0]);
            }
        }
    }
    assert forall|i: int| 0 <= i < p3.len() implies !occurs_at(p3, i, p2) by {
        if occurs_at(p3, i, p2) {
            if i == 1 {
                assert(p3.subrange(1, 10)[1] == p2[1]);
            } else {
                assert(p3.subrange(i, i + 9)[0] == p2[0]);
            }
        }
    }
    lemma_remove_all_append(s, p3, p1);
    lemma_remove_all_absent(p3, p1);
    lemma_remove_all_append(r1, p3, p2);
    lemma_remove_all_absent(p3, p2);
    let r2 = remove_all(r1, p2);
    lemma_remove_all_append(r2, p3, p3);
    lemma_remove_all_self(p3);
    let r3 = remove_all(r2, p3);
    assert(remove_all(r2 + p3, p3) =~= r3);
    assert(strip_health(s + p3) == strip_health(s));
}


/// Only physical interfaces count: the loopback `lo`, the docker bridges
/// (`docker…`, `br-…`) and the containers' ends of virtual pairs (`veth…`)
/// add nothing to the received or transmitted totals of `/proc/net/dev`,
/// wherever their line stands among the others.
pub proof fn law_veth_lines_count_nothing(
    a: Seq<Seq<char>>,
    b: Seq<Seq<char>>,
    name: Seq<char>,
    rest: Seq<char>,
)
    requires
        forall|i: int| 0 <= i < name.len() ==> name[i] != ':',
        trim(name) == "lo"@ || starts_with(trim(name), "docker"@) || starts_with(trim(name), "veth"@)
            || starts_with(trim(name), "br-"@),
    ensures
        net_totals(a.push(name + seq![':'] + rest) + b) == net_totals(a + b),
    decreases b.len(),
{
    let l = name + seq![':'] + rest;
    if b.len() == 0 {
        assert(a.push(l) + b =~= a.push(l));
        assert(a + b =~= a);
        lemma_find_char_from(l, ':', 0);
        let k = find_char_from(l, ':', 0);
        assert(l[name.len() as int] == ':');
        if k > name.len() {
            assert(l[name.len() as int] != ':');
        }
        if k < name.len() {
            assert(l[k] == name[k]);
        }
        assert(k == name.len());
        assert(l.subrange(0, k) =~= name);
        assert(net_line(l) is None);
        assert(a.push(l).drop_last() =~= a);
    } else {
        let c = a.push(l) + b;
        let d = a + b;
        assert(c.drop_last() =~= a.push(l) + b.drop_last());
        assert(d.drop_last() =~= a + b.drop_last());
        assert(c.last() == b.last());
        assert(d.last() == b.last());
        law_veth_lines_count_nothing(a, b.drop_last(), name, rest);
    }
}

} // verus!
