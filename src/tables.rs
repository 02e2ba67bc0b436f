//! The host and static-lease tables that the data model enumerates, read
//! from the text of `/etc/hosts` and of the DHCP configuration listing.
use vstd::prelude::*;
use crate::dm::{pairs_view, split_on, split_on_exec, Pair};
use crate::text::{
    contains_str, has_infix, is_prefix, is_ws, matches_at, push_char, push_str, trim, trimmed,
};

verus! {

/// The lines of a text: the pieces between newlines, without the empty
/// piece after a final newline, each without one trailing carriage return.
pub open spec fn text_lines(s: Seq<char>) -> Seq<Seq<char>> {
    let pieces = split_on(s, '\n');
    let kept = if pieces.last().len() == 0 {
        pieces.drop_last()
    } else {
        pieces
    };
    kept.map_values(|l: Seq<char>| if l.len() > 0 && l.last() == '\r' {
        l.drop_last()
    } else {
        l
    })
}

pub fn lines_of(s: &str) -> (r: Vec<String>)
    ensures
        crate::pb::view_seq(r@) == text_lines(s@),
{
    let pieces = split_on_exec(s, '\n');
    proof {
        crate::dm::lemma_split_nonempty(s@, '\n');
    }
    let n = pieces.len();
    let keep = if pieces[n - 1].as_str().unicode_len() == 0 {
        n - 1
    } else {
        n
    };
    let ghost pv = crate::pb::view_seq(pieces@);
    let ghost kept = if pv.last().len() == 0 {
        pv.drop_last()
    } else {
        pv
    };
    assert(kept =~= pv.take(keep as int));
    let mut out: Vec<String> = Vec::new();
    let mut i: usize = 0;
    while i < keep
        invariant
            keep <= pieces@.len(),
            i <= keep,
            pv == crate::pb::view_seq(pieces@),
            crate::pb::view_seq(out@) == pv.take(i as int).map_values(|l: Seq<char>| if l.len() > 0 && l.last() == '\r' {
                l.drop_last()
            } else {
                l
            }),
        decreases keep - i,
    {
        let p = pieces[i].as_str();
        let m = p.unicode_len();
        let line = if m > 0 && p.get_char(m - 1) == '\r' {
            String::from_str(p.substring_char(0, m - 1))
        } else {
            String::from_str(p)
        };
        let ghost before = crate::pb::view_seq(out@);
        proof {
            if m > 0 {
                assert(p@.drop_last() =~= p@.subrange(0, m - 1));
            }
        }
        out.push(line);
        proof {
            assert(crate::pb::view_seq(out@) =~= before.push(line@));
            assert(pv.take(i + 1) =~= pv.take(i as int).push(pv[i as int]));
        }
        i = i + 1;
    }
    out
}

// ---------------------------------------------------------------- hosts

/// The position of the first white space at or after `i`, or the end.
pub open spec fn next_ws(s: Seq<char>, i: int) -> int
    decreases s.len() - i,
{
    if i < 0 || i >= s.len() {
        s.len() as int
    } else if is_ws(s[i]) {
        i
    } else {
        next_ws(s, i + 1)
    }
}

/// The first two words of a trimmed line.
pub open spec fn two_words(t: Seq<char>) -> (Seq<char>, Seq<char>) {
    let e1 = next_ws(t, 0);
    let s2 = crate::text::skip_ws(t, e1);
    (t.subrange(0, e1), t.subrange(s2, next_ws(t, s2)))
}

/// The (address, name) entry of one hosts-file line, if it has one.
pub open spec fn host_entry(line: Seq<char>) -> Option<Pair> {
    let t = trimmed(line);
    if t.len() == 0 || t[0] == '#' {
        None
    } else {
        let w = two_words(t);
        if w.0.len() > 0 && w.1.len() > 0 {
            Some(w)
        } else {
            None
        }
    }
}

pub open spec fn host_entries(lines: Seq<Seq<char>>) -> Seq<Pair>
    decreases lines.len(),
{
    if lines.len() == 0 {
        seq![]
    } else {
        match host_entry(lines.last()) {
            Some(e) => host_entries(lines.drop_last()).push(e),
            None => host_entries(lines.drop_last()),
        }
    }
}

fn next_ws_exec(s: &str, i: usize) -> (r: usize)
    requires
        i <= s@.len(),
    ensures
        r as int == next_ws(s@, i as int),
        i <= r <= s@.len(),
{
    let n = s.unicode_len();
    let mut j = i;
    while j < n && !crate::text::is_ws_exec(s.get_char(j))
        invariant
            n == s@.len(),
            i <= j <= n,
            next_ws(s@, i as int) == next_ws(s@, j as int),
        decreases n - j,
    {
        j = j + 1;
    }
    j
}

fn skip_ws_exec(s: &str, i: usize) -> (r: usize)
    requires
        i <= s@.len(),
    ensures
        r as int == crate::text::skip_ws(s@, i as int),
        i <= r <= s@.len(),
{
    let n = s.unicode_len();
    let mut j = i;
    while j < n && crate::text::is_ws_exec(s.get_char(j))
        invariant
            n == s@.len(),
            i <= j <= n,
            crate::text::skip_ws(s@, i as int) == crate::text::skip_ws(s@, j as int),
        decreases n - j,
    {
        j = j + 1;
    }
    j
}

fn host_entry_exec(line: &str) -> (r: Option<(String, String)>)
    ensures
        match host_entry(line@) {
            Some(e) => r matches Some(x) && (x.0@, x.1@) == e,
            None => r is None,
        },
{
    let t = trim(line);
    let t = t.as_str();
    let n = t.unicode_len();
    if n == 0 || t.get_char(0) == '#' {
        return None;
    }
    let e1 = next_ws_exec(t, 0);
    let s2 = skip_ws_exec(t, e1);
    let e2 = next_ws_exec(t, s2);
    let ip = String::from_str(t.substring_char(0, e1));
    let name = String::from_str(t.substring_char(s2, e2));
    if ip.as_str().unicode_len() > 0 && name.as_str().unicode_len() > 0 {
        Some((ip, name))
    } else {
        None
    }
}

/// The entries of a hosts file, as (address, first name), in order;
/// blank lines, comments and lines with fewer than two words are skipped.
pub fn parse_hosts(content: &str) -> (r: Vec<(String, String)>)
    ensures
        pairs_view(r@) == host_entries(text_lines(content@)),
{
    let lines = lines_of(content);
    let mut out: Vec<(String, String)> = Vec::new();
    let mut i: usize = 0;
    while i < lines.len()
        invariant
            i <= lines@.len(),
            pairs_view(out@) == host_entries(crate::pb::view_seq(lines@).take(i as int)),
        decreases lines@.len() - i,
    {
        proof {
            let lv = crate::pb::view_seq(lines@);
            assert(lv.take(i + 1).drop_last() =~= lv.take(i as int));
            assert(lv.take(i + 1).last() == lines@[i as int]@);
        }
        match host_entry_exec(lines[i].as_str()) {
            Some(e) => {
                let ghost before = pairs_view(out@);
                let ghost ev = (e.0@, e.1@);
                out.push(e);
                assert(pairs_view(out@) =~= before.push(ev));
            },
            None => {},
        }
        i = i + 1;
    }
    assert(crate::pb::view_seq(lines@).take(i as int) =~= crate::pb::view_seq(lines@));
    out
}

// ---------------------------------------------------------------- leases

/// `s` with every leading and trailing `c` removed.
pub open spec fn strip_both(s: Seq<char>, c: char) -> Seq<char>
    decreases s.len(),
{
    if s.len() > 0 && s[0] == c {
        strip_both(s.drop_first(), c)
    } else if s.len() > 0 && s.last() == c {
        strip_both(s.drop_last(), c)
    } else {
        s
    }
}

pub fn strip_both_exec(s: &str, c: char) -> (r: String)
    ensures
        r@ == strip_both(s@, c),
{
    let n = s.unicode_len();
    let mut a: usize = 0;
    let mut b: usize = n;
    assert(s@.subrange(0, n as int) =~= s@);
    loop
        invariant
            n == s@.len(),
            a <= b <= n,
            strip_both(s@, c) == strip_both(s@.subrange(a as int, b as int), c),
        decreases b - a,
    {
        let ghost cur = s@.subrange(a as int, b as int);
        if a < b && s.get_char(a) == c {
            assert(cur.drop_first() =~= s@.subrange(a + 1, b as int));
            a = a + 1;
        } else if a < b && s.get_char(b - 1) == c {
            assert(cur.drop_last() =~= s@.subrange(a as int, b - 1));
            b = b - 1;
        } else {
            return String::from_str(s.substring_char(a, b));
        }
    }
}

/// The value of a `key=value` line as the listing is read: the piece after
/// the first `=` up to the next one, without surrounding quotes.
pub open spec fn listed_value(line: Seq<char>) -> Seq<char> {
    let pieces = split_on(line, '=');
    strip_both(if pieces.len() > 1 {
        pieces[1]
    } else {
        seq![]
    }, '\'')
}

fn listed_value_exec(line: &str) -> (r: String)
    ensures
        r@ == listed_value(line@),
{
    let pieces = split_on_exec(line, '=');
    if pieces.len() > 1 {
        strip_both_exec(pieces[1].as_str(), '\'')
    } else {
        let e = String::new();
        assert(e@ =~= Seq::<char>::empty());
        strip_both_exec(e.as_str(), '\'')
    }
}

/// `s` with every occurrence of `from` replaced by `to`, left to right.
pub open spec fn replace_all(s: Seq<char>, from: Seq<char>, to: Seq<char>) -> Seq<char>
    decreases s.len(),
{
    if s.len() == 0 {
        seq![]
    } else if from.len() > 0 && is_prefix(from, s) {
        to + replace_all(s.subrange(from.len() as int, s.len() as int), from, to)
    } else {
        seq![s[0]] + replace_all(s.drop_first(), from, to)
    }
}

fn replace_all_exec(s: &str, from: &str, to: &str) -> (r: String)
    ensures
        r@ == replace_all(s@, from@, to@),
{
    let n = s.unicode_len();
    let m = from.unicode_len();
    let mut out = String::new();
    let mut i: usize = 0;
    assert(s@.subrange(0, n as int) =~= s@);
    while i < n
        invariant
            n == s@.len(),
            m == from@.len(),
            i <= n,
            replace_all(s@, from@, to@) == out@ + replace_all(s@.subrange(i as int, n as int), from@, to@),
        decreases n - i,
    {
        let ghost rest = s@.subrange(i as int, n as int);
        if m > 0 && matches_at(s, from, i) {
            assert(rest.subrange(0, m as int) =~= s@.subrange(i as int, i + m));
            assert(rest.subrange(m as int, rest.len() as int) =~= s@.subrange(i + m, n as int));
            push_str(&mut out, to);
            i = i + m;
        } else {
            proof {
                if m > 0 && is_prefix(from@, rest) {
                    assert(s@.subrange(i as int, i + m) =~= rest.subrange(0, m as int));
                }
            }
            assert(rest.drop_first() =~= s@.subrange(i + 1, n as int));
            let ghost before = out@;
            push_char(&mut out, s.get_char(i));
            assert(out@ =~= before + seq![rest[0]]);
            i = i + 1;
        }
    }
    assert(replace_all(s@.subrange(n as int, n as int), from@, to@) == Seq::<char>::empty());
    assert(out@ + Seq::<char>::empty() =~= out@);
    out
}

/// The first line that contains `key`.
pub open spec fn first_with(lines: Seq<Seq<char>>, key: Seq<char>) -> Option<Seq<char>>
    decreases lines.len(),
{
    if lines.len() == 0 {
        None
    } else if has_infix(key, lines[0]) {
        Some(lines[0])
    } else {
        first_with(lines.drop_first(), key)
    }
}

/// The lease of one listing line, given all lines: lines that set a host
/// section's `mac` give (MAC, IP), the IP being the value of the first line
/// that contains this line with `.mac=` written as `.ip=`, or empty.
pub open spec fn lease_of(line: Seq<char>, all: Seq<Seq<char>>) -> Option<Pair> {
    if has_infix("host."@, line) && has_infix(".mac="@, line) {
        let ip_key = replace_all(line, ".mac="@, ".ip="@);
        let ip = match first_with(all, ip_key) {
            Some(l) => listed_value(l),
            None => seq![],
        };
        Some((listed_value(line), ip))
    } else {
        None
    }
}

pub open spec fn leases_of(lines: Seq<Seq<char>>, all: Seq<Seq<char>>) -> Seq<Pair>
    decreases lines.len(),
{
    if lines.len() == 0 {
        seq![]
    } else {
        match lease_of(lines.last(), all) {
            Some(e) => leases_of(lines.drop_last(), all).push(e),
            None => leases_of(lines.drop_last(), all),
        }
    }
}

fn first_with_exec<'a>(lines: &'a Vec<String>, key: &str) -> (r: Option<&'a String>)
    ensures
        match first_with(crate::pb::view_seq(lines@), key@) {
            Some(l) => r matches Some(x) && x@ == l,
            None => r is None,
        },
{
    let mut j: usize = 0;
    assert(crate::pb::view_seq(lines@).skip(0) =~= crate::pb::view_seq(lines@));
    while j < lines.len()
        invariant
            j <= lines@.len(),
            first_with(crate::pb::view_seq(lines@), key@) == first_with(crate::pb::view_seq(lines@).skip(j as int), key@),
        decreases lines@.len() - j,
    {
        proof {
            let v = crate::pb::view_seq(lines@).skip(j as int);
            assert(v[0] == lines@[j as int]@);
            assert(v.drop_first() =~= crate::pb::view_seq(lines@).skip(j + 1));
        }
        if contains_str(lines[j].as_str(), key) {
            return Some(&lines[j]);
        }
        j = j + 1;
    }
    None
}

/// The static leases of a DHCP configuration listing, as (MAC, IP), in the
/// order listed.
pub fn parse_dhcp_leases(listing: &str) -> (r: Vec<(String, String)>)
    ensures
        pairs_view(r@) == leases_of(text_lines(listing@), text_lines(listing@)),
{
    let lines = lines_of(listing);
    let ghost all = crate::pb::view_seq(lines@);
    let mut out: Vec<(String, String)> = Vec::new();
    let mut i: usize = 0;
    while i < lines.len()
        invariant
            i <= lines@.len(),
            all == crate::pb::view_seq(lines@),
            pairs_view(out@) == leases_of(all.take(i as int), all),
        decreases lines@.len() - i,
    {
        proof {
            assert(all.take(i + 1).drop_last() =~= all.take(i as int));
            assert(all.take(i + 1).last() == lines@[i as int]@);
        }
        let line = lines[i].as_str();
        if contains_str(line, "host.") && contains_str(line, ".mac=") {
            let mac = listed_value_exec(line);
            let ip_key = replace_all_exec(line, ".mac=", ".ip=");
            let ip = match first_with_exec(&lines, ip_key.as_str()) {
                Some(l) => listed_value_exec(l.as_str()),
                None => String::new(),
            };
            let ghost before = pairs_view(out@);
            let ghost ev = (mac@, ip@);
            out.push((mac, ip));
            assert(pairs_view(out@) =~= before.push(ev));
        }
        i = i + 1;
    }
    assert(all.take(i as int) =~= all);
    out
}

} // verus!
