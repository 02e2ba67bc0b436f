//! System statistics as the platform reports them: the text of the files
//! and commands read, turned into the values the data model serves.
use vstd::prelude::*;
use crate::pb::view_seq;
use crate::tables::{text_lines, lines_of};
use crate::text::{decimal, is_prefix, is_ws, is_ws_exec, push_char, push_str, str_eq, starts_with, to_decimal, trim, trimmed};

verus! {

/// The words of `s`: the maximal runs of characters that are not white
/// space, in order.
pub open spec fn words(s: Seq<char>) -> Seq<Seq<char>>
    decreases s.len(),
{
    if s.len() == 0 {
        seq![]
    } else {
        let w = words(s.drop_last());
        let c = s.last();
        if is_ws(c) {
            w
        } else if s.len() >= 2 && !is_ws(s[s.len() - 2]) && w.len() > 0 {
            w.update(w.len() - 1, w.last().push(c))
        } else {
            w.push(seq![c])
        }
    }
}

pub fn words_of(s: &str) -> (r: Vec<String>)
    ensures
        view_seq(r@) == words(s@),
{
    let n = s.unicode_len();
    let mut out: Vec<String> = Vec::new();
    let mut prev_word = false;
    let mut i: usize = 0;
    while i < n
        invariant
            n == s@.len(),
            i <= n,
            view_seq(out@) == words(s@.subrange(0, i as int)),
            prev_word == (i > 0 && !is_ws(s@[i - 1])),
        decreases n - i,
    {
        let c = s.get_char(i);
        let ghost t = s@.subrange(0, i + 1);
        assert(t.drop_last() =~= s@.subrange(0, i as int));
        assert(t.last() == c);
        if is_ws_exec(c) {
            prev_word = false;
        } else if prev_word && out.len() > 0 {
            assert(t[t.len() - 2] == s@[i - 1]);
            let ghost before = view_seq(out@);
            let mut cur = match out.pop() {
                Some(w) => w,
                None => String::new(),
            };
            let ghost cv = cur@;
            assert(cv == before.last());
            push_char(&mut cur, c);
            out.push(cur);
            assert(view_seq(out@) =~= before.update(before.len() - 1, cv.push(c)));
            prev_word = true;
        } else {
            proof {
                if i > 0 {
                    assert(t[t.len() - 2] == s@[i - 1]);
                }
            }
            let ghost before = view_seq(out@);
            let mut w = String::new();
            push_char(&mut w, c);
            out.push(w);
            assert(view_seq(out@) =~= before.push(seq![c]));
            prev_word = true;
        }
        i = i + 1;
    }
    assert(s@.subrange(0, n as int) =~= s@);
    out
}

/// Words joined with single spaces.
pub open spec fn spaced(ws: Seq<Seq<char>>) -> Seq<char>
    decreases ws.len(),
{
    if ws.len() == 0 {
        seq![]
    } else if ws.len() == 1 {
        ws[0]
    } else {
        spaced(ws.drop_last()) + seq![' '] + ws.last()
    }
}

/// The load averages: the first three words of the load file, joined with
/// spaces.
pub open spec fn load_avg_of(content: Seq<char>) -> Seq<char> {
    let w = words(content);
    spaced(if w.len() > 3 {
        w.take(3)
    } else {
        w
    })
}

pub fn load_avg_text(content: &str) -> (r: String)
    ensures
        r@ == load_avg_of(content@),
{
    let w = words_of(content);
    let k: usize = if w.len() > 3 {
        3
    } else {
        w.len()
    };
    let ghost ws = view_seq(w@);
    let ghost kept = if ws.len() > 3 {
        ws.take(3)
    } else {
        ws
    };
    assert(kept =~= ws.take(k as int));
    let mut s = String::new();
    let mut i: usize = 0;
    while i < k
        invariant
            k <= w@.len(),
            i <= k,
            ws == view_seq(w@),
            s@ == spaced(ws.take(i as int)),
        decreases k - i,
    {
        if i > 0 {
            push_char(&mut s, ' ');
        }
        push_str(&mut s, w[i].as_str());
        proof {
            assert(ws.take(i + 1).drop_last() =~= ws.take(i as int));
            assert(ws.take(i + 1).last() == w@[i as int]@);
            if i == 0 {
                assert(s@ =~= w@[0]@);
            }
        }
        i = i + 1;
    }
    s
}

/// Seconds as `<d>d <h>h <m>m <s>s`.
pub open spec fn uptime_of(secs: nat) -> Seq<char> {
    decimal(secs / 86400) + "d "@ + decimal((secs % 86400) / 3600) + "h "@ + decimal((secs % 3600) / 60) + "m "@
        + decimal(secs % 60) + "s"@
}

pub fn uptime_text(secs: u64) -> (r: String)
    ensures
        r@ == uptime_of(secs as nat),
{
    let mut s = to_decimal(secs / 86400);
    push_str(&mut s, "d ");
    push_str(&mut s, to_decimal((secs % 86400) / 3600).as_str());
    push_str(&mut s, "h ");
    push_str(&mut s, to_decimal((secs % 3600) / 60).as_str());
    push_str(&mut s, "m ");
    push_str(&mut s, to_decimal(secs % 60).as_str());
    push_str(&mut s, "s");
    s
}

/// The first line of `lines` that starts with `p`, without `p`.
pub open spec fn after_prefix(lines: Seq<Seq<char>>, p: Seq<char>) -> Option<Seq<char>>
    decreases lines.len(),
{
    if lines.len() == 0 {
        None
    } else if is_prefix(p, lines[0]) {
        Some(lines[0].subrange(p.len() as int, lines[0].len() as int))
    } else {
        after_prefix(lines.drop_first(), p)
    }
}

fn after_prefix_exec(lines: &Vec<String>, p: &str) -> (r: Option<String>)
    ensures
        match after_prefix(view_seq(lines@), p@) {
            Some(x) => r matches Some(y) && y@ == x,
            None => r is None,
        },
{
    let mut j: usize = 0;
    assert(view_seq(lines@).skip(0) =~= view_seq(lines@));
    while j < lines.len()
        invariant
            j <= lines@.len(),
            after_prefix(view_seq(lines@), p@) == after_prefix(view_seq(lines@).skip(j as int), p@),
        decreases lines@.len() - j,
    {
        proof {
            let v = view_seq(lines@).skip(j as int);
            assert(v[0] == lines@[j as int]@);
            assert(v.drop_first() =~= view_seq(lines@).skip(j + 1));
        }
        let l = lines[j].as_str();
        if starts_with(l, p) {
            let n = l.unicode_len();
            let m = p.unicode_len();
            return Some(String::from_str(l.substring_char(m, n)));
        }
        j = j + 1;
    }
    None
}

/// Free memory in kB: the first word after `MemFree:` read as a number (0
/// when it does not read), or empty when the line is missing.
pub open spec fn free_mem_of(content: Seq<char>) -> Seq<char> {
    match after_prefix(text_lines(content), "MemFree:"@) {
        Some(rest) => {
            let w = words(rest);
            let n = if w.len() > 0 {
                match crate::config::number_of(w[0], 0xffff_ffff_ffff_ffff) {
                    Some(v) => v,
                    None => 0,
                }
            } else {
                0
            };
            decimal(n)
        },
        None => seq![],
    }
}

pub fn free_mem_text(content: &str) -> (r: String)
    ensures
        r@ == free_mem_of(content@),
{
    let lines = lines_of(content);
    match after_prefix_exec(&lines, "MemFree:") {
        Some(rest) => {
            let w = words_of(rest.as_str());
            let n = if w.len() > 0 {
                crate::config::number_or(w[0].as_str(), 0xffff_ffff_ffff_ffff, 0)
            } else {
                0
            };
            to_decimal(n)
        },
        None => String::new(),
    }
}

/// The firmware revision: `DISTRIB_REVISION=` of the release file without
/// its quotes, else the trimmed version file, else empty.
pub open spec fn fw_version_of(release: Option<Seq<char>>, version: Option<Seq<char>>) -> Seq<char> {
    let from_release = match release {
        Some(r) => after_prefix(text_lines(r), "DISTRIB_REVISION="@),
        None => None,
    };
    match from_release {
        Some(v) => crate::tables::strip_both(crate::tables::strip_both(v, '\''), '"'),
        None => match version {
            Some(t) => trimmed(t),
            None => seq![],
        },
    }
}

pub fn fw_version_text(release: Option<&str>, version: Option<&str>) -> (r: String)
    ensures
        r@ == fw_version_of(
            match release {
                Some(x) => Some(x@),
                None => None,
            },
            match version {
                Some(x) => Some(x@),
                None => None,
            },
        ),
{
    let from_release = match release {
        Some(r) => after_prefix_exec(&lines_of(r), "DISTRIB_REVISION="),
        None => None,
    };
    match from_release {
        Some(v) => {
            let a = crate::tables::strip_both_exec(v.as_str(), '\'');
            crate::tables::strip_both_exec(a.as_str(), '"')
        },
        None => match version {
            Some(t) => trim(t),
            None => String::new(),
        },
    }
}

/// The SSID that `iw dev` reports: the rest of the first line that starts
/// with `ssid ` once trimmed, itself trimmed; empty when there is none.
pub open spec fn ssid_of(output: Seq<char>) -> Seq<char> {
    match after_prefix(text_lines(output).map_values(|l: Seq<char>| trimmed(l)), "ssid "@) {
        Some(rest) => trimmed(rest),
        None => seq![],
    }
}

pub fn ssid_text(output: &str) -> (r: String)
    ensures
        r@ == ssid_of(output@),
{
    let lines = lines_of(output);
    let mut t: Vec<String> = Vec::new();
    let mut i: usize = 0;
    while i < lines.len()
        invariant
            i <= lines@.len(),
            view_seq(t@) == view_seq(lines@).take(i as int).map_values(|l: Seq<char>| trimmed(l)),
        decreases lines@.len() - i,
    {
        let ghost before = view_seq(t@);
        let x = trim(lines[i].as_str());
        let ghost xv = x@;
        t.push(x);
        proof {
            assert(view_seq(t@) =~= before.push(xv));
            assert(view_seq(lines@).take(i + 1).map_values(|l: Seq<char>| trimmed(l)) =~= view_seq(lines@).take(
                i as int,
            ).map_values(|l: Seq<char>| trimmed(l)).push(trimmed(lines@[i as int]@)));
        }
        i = i + 1;
    }
    assert(view_seq(lines@).take(i as int) =~= view_seq(lines@));
    match after_prefix_exec(&t, "ssid ") {
        Some(rest) => trim(rest.as_str()),
        None => String::new(),
    }
}


/// The entries of the neighbour table: after the heading line, each line
/// with at least four words whose fourth (the hardware address) is not all
/// zeros gives (first word, fourth word).
pub open spec fn arp_of(lines: Seq<Seq<char>>) -> Seq<(Seq<char>, Seq<char>)>
    decreases lines.len(),
{
    if lines.len() <= 1 {
        seq![]
    } else {
        let w = words(lines.last());
        let rest = arp_of(lines.drop_last());
        if w.len() >= 4 && w[3] != "00:00:00:00:00:00"@ {
            rest.push((w[0], w[3]))
        } else {
            rest
        }
    }
}

/// The complete entries of the neighbour table text, as (IP, MAC).
pub fn arp_entries(content: &str) -> (r: Vec<(String, String)>)
    ensures
        crate::dm::pairs_view(r@) == arp_of(text_lines(content@)),
{
    let lines = lines_of(content);
    let ghost lv = view_seq(lines@);
    let mut out: Vec<(String, String)> = Vec::new();
    if lines.len() == 0 {
        return out;
    }
    let mut i: usize = 1;
    assert(arp_of(lv.take(1)) == Seq::<(Seq<char>, Seq<char>)>::empty());
    while i < lines.len()
        invariant
            1 <= i <= lines@.len(),
            lv == view_seq(lines@),
            crate::dm::pairs_view(out@) == arp_of(lv.take(i as int)),
        decreases lines@.len() - i,
    {
        let w = words_of(lines[i].as_str());
        proof {
            assert(lv.take(i + 1).drop_last() =~= lv.take(i as int));
            assert(lv.take(i + 1).last() == lines@[i as int]@);
        }
        if w.len() >= 4 && !str_eq(w[3].as_str(), "00:00:00:00:00:00") {
            let ghost before = crate::dm::pairs_view(out@);
            let e = (w[0].clone(), w[3].clone());
            let ghost ev = (e.0@, e.1@);
            out.push(e);
            assert(crate::dm::pairs_view(out@) =~= before.push(ev));
        }
        i = i + 1;
    }
    assert(lv.take(i as int) =~= lv);
    out
}

/// A 32-bit number in hex as `u32::from_str_radix` reads it.
pub open spec fn hex32_of(s: Seq<char>) -> Option<u32> {
    let t = if s.len() > 0 && s[0] == '+' {
        s.drop_first()
    } else {
        s
    };
    if t.len() == 0 {
        None
    } else {
        match crate::gnss::hex_digits(t) {
            Some(v) => if v <= 0xffff_ffff {
                Some(v as u32)
            } else {
                None
            },
            None => None,
        }
    }
}

fn hex32_exec(s: &str) -> (r: Option<u32>)
    ensures
        r == hex32_of(s@),
{
    let n = s.unicode_len();
    let start: usize = if n > 0 && s.get_char(0) == '+' {
        1
    } else {
        0
    };
    let ghost t = if s@.len() > 0 && s@[0] == '+' {
        s@.drop_first()
    } else {
        s@
    };
    assert(t =~= s@.subrange(start as int, n as int));
    if start == n {
        return None;
    }
    let mut v: u64 = 0;
    let mut i: usize = start;
    while i < n
        invariant
            n == s@.len(),
            start <= i <= n,
            start < n,
            t == s@.subrange(start as int, n as int),
            hex32_of(s@) == (match crate::gnss::hex_digits(t) {
                Some(w) => if w <= 0xffff_ffff {
                    Some(w as u32)
                } else {
                    None
                },
                None => None,
            }),
            crate::gnss::hex_digits(t.subrange(0, i - start)) == Some(v as nat),
            v <= 0xffff_ffff,
        decreases n - i,
    {
        let ghost pre = t.subrange(0, i - start);
        assert(t.subrange(0, i - start + 1).drop_last() =~= pre);
        assert(t.subrange(0, i - start + 1).last() == s@[i as int]);
        match crate::gnss::hex_val_pub(s.get_char(i)) {
            Some(d) => {
                let w = v * 16 + d as u64;
                if w > 0xffff_ffff {
                    proof {
                        crate::gnss::lemma_hex_grow_pub(t, i - start + 1, 0xffff_ffff);
                    }
                    return None;
                }
                v = w;
            },
            None => {
                proof {
                    crate::gnss::lemma_hex_none_pub(t, i - start + 1);
                }
                return None;
            },
        }
        i = i + 1;
    }
    assert(t.subrange(0, n - start) =~= t);
    Some(v as u32)
}

/// An address held little-endian in a 32-bit number, dotted.
pub open spec fn dotted(v: u32) -> Seq<char> {
    decimal((v % 256) as nat) + "."@ + decimal(((v / 256) % 256) as nat) + "."@ + decimal(((v / 65536) % 256) as nat)
        + "."@ + decimal((v / 16777216) as nat)
}

/// The default gateway in a routing table text: after the heading line,
/// the first line whose second word is `00000000` and whose third reads as
/// hex; empty when there is none.
pub open spec fn gateway_of(lines: Seq<Seq<char>>) -> Seq<char>
    decreases lines.len(),
{
    if lines.len() <= 1 {
        seq![]
    } else {
        let w = words(lines[1]);
        if w.len() >= 3 && w[1] == "00000000"@ && hex32_of(w[2]) is Some {
            dotted(hex32_of(w[2])->Some_0)
        } else {
            gateway_of(seq![lines[0]] + lines.subrange(2, lines.len() as int))
        }
    }
}

pub fn default_gateway(content: &str) -> (r: String)
    ensures
        r@ == gateway_of(text_lines(content@)),
{
    let lines = lines_of(content);
    let ghost lv = view_seq(lines@);
    if lines.len() <= 1 {
        return String::new();
    }
    let mut i: usize = 1;
    assert(lv =~= seq![lv[0]] + lv.subrange(1, lv.len() as int));
    while i < lines.len()
        invariant
            1 <= i <= lines@.len(),
            lv == view_seq(lines@),
            lv == text_lines(content@),
            lv.len() >= 1,
            gateway_of(lv) == gateway_of(seq![lv[0]] + lv.subrange(i as int, lv.len() as int)),
        decreases lines@.len() - i,
    {
        let ghost cur = seq![lv[0]] + lv.subrange(i as int, lv.len() as int);
        assert(cur[1] == lines@[i as int]@);
        assert(seq![cur[0]] + cur.subrange(2, cur.len() as int) =~= seq![lv[0]] + lv.subrange(i + 1, lv.len() as int));
        let w = words_of(lines[i].as_str());
        if w.len() >= 3 && str_eq(w[1].as_str(), "00000000") {
            match hex32_exec(w[2].as_str()) {
                Some(v) => {
                    let mut s = to_decimal((v % 256) as u64);
                    push_str(&mut s, ".");
                    push_str(&mut s, to_decimal(((v / 256) % 256) as u64).as_str());
                    push_str(&mut s, ".");
                    push_str(&mut s, to_decimal(((v / 65536) % 256) as u64).as_str());
                    push_str(&mut s, ".");
                    push_str(&mut s, to_decimal((v / 16777216) as u64).as_str());
                    assert(s@ =~= dotted(v));
                    return s;
                },
                None => {},
            }
        }
        i = i + 1;
    }
    assert(seq![lv[0]] + lv.subrange(i as int, lv.len() as int) =~= seq![lv[0]]);
    String::new()
}

} // verus!
