use vstd::prelude::*;
use crate::text::{push_char, strings_view};

verus! {

// ── Searching ────────────────────────────────────────────────────────────────

/// `pat` occurs in `s` starting at `i`.
pub open spec fn occurs_at(s: Seq<char>, pat: Seq<char>, i: int) -> bool {
    0 <= i && i + pat.len() <= s.len() && s.subrange(i, i + pat.len()) == pat
}

/// The first position at or after `from` where `pat` occurs in `s`.
pub open spec fn find_from(s: Seq<char>, pat: Seq<char>, from: nat) -> Option<nat>
    decreases s.len() + 1 - from,
{
    if from + pat.len() > s.len() {
        None
    } else if occurs_at(s, pat, from as int) {
        Some(from)
    } else {
        find_from(s, pat, from + 1)
    }
}

pub open spec fn contains_text(s: Seq<char>, pat: Seq<char>) -> bool {
    find_from(s, pat, 0) is Some
}

proof fn lemma_find_from_none(s: Seq<char>, pat: Seq<char>, from: nat, i: int)
    requires
        find_from(s, pat, from) is None,
        from <= i,
    ensures
        !occurs_at(s, pat, i),
    decreases s.len() + 1 - from,
{
    if from + pat.len() <= s.len() && from < i {
        lemma_find_from_none(s, pat, from + 1, i);
    }
}

fn occurs_at_exec(s: &Vec<char>, pat: &Vec<char>, i: usize) -> (r: bool)
    requires
        i + pat@.len() <= s@.len(),
    ensures
        r == occurs_at(s@, pat@, i as int),
{
    let mut k: usize = 0;
    while k < pat.len()
        invariant
            i + pat@.len() <= s@.len(),
            s@.len() == s.len(),
            k <= pat@.len(),
            forall|j: int| 0 <= j < k ==> s@[i + j] == pat@[j],
        decreases pat@.len() - k,
    {
        if s[i + k] != pat[k] {
            proof {
                assert(s@.subrange(i as int, i + pat@.len())[k as int] != pat@[k as int]);
            }
            return false;
        }
        k = k + 1;
    }
    proof { assert(s@.subrange(i as int, i + pat@.len()) =~= pat@); }
    true
}

/// The first position at or after `from` where `pat` occurs in `s`.
pub fn find_text(s: &Vec<char>, pat: &Vec<char>, from: usize) -> (r: Option<usize>)
    ensures
        match r {
            Some(i) => find_from(s@, pat@, from as nat) == Some(i as nat),
            None => find_from(s@, pat@, from as nat) is None,
        },
{
    let mut i = from;
    while i <= s.len() && pat.len() <= s.len() - i
        invariant
            from <= i,
            find_from(s@, pat@, from as nat) == find_from(s@, pat@, i as nat),
        decreases s@.len() + 1 - i,
    {
        if occurs_at_exec(s, pat, i) {
            return Some(i);
        }
        assert(i < s@.len()) by {
            if i == s@.len() {
                assert(s@.subrange(i as int, i as int) =~= pat@);
            }
        }
        i = i + 1;
    }
    None
}

// ── Lines ────────────────────────────────────────────────────────────────────

/// The end of the line that starts at `start`: the next `\n`, or the end.
pub open spec fn line_end(s: Seq<char>, start: nat) -> nat
    decreases s.len() - start,
{
    if start >= s.len() {
        s.len()
    } else if s[start as int] == '\n' {
        start
    } else {
        line_end(s, start + 1)
    }
}

/// The lines of `s` from `start` on, as `str::lines` gives them: split at
/// `\n`, a `\r` just before the `\n` dropped, no empty line after a final
/// `\n`.
pub open spec fn lines_from(s: Seq<char>, start: nat) -> Seq<Seq<char>>
    decreases s.len() - start,
{
    if start >= s.len() {
        Seq::empty()
    } else {
        let e = line_end(s, start);
        proof { lemma_line_end_bounds(s, start); }
        let cut: int = if e < s.len() && e > start && s[e - 1] == '\r' { e - 1 } else { e as int };
        seq![s.subrange(start as int, cut)] + if e < s.len() { lines_from(s, e + 1) } else { Seq::empty() }
    }
}

pub open spec fn lines_of(s: Seq<char>) -> Seq<Seq<char>> {
    lines_from(s, 0)
}

pub proof fn lemma_line_end_bounds(s: Seq<char>, start: nat)
    requires
        start <= s.len(),
    ensures
        start <= line_end(s, start) <= s.len(),
        line_end(s, start) < s.len() ==> s[line_end(s, start) as int] == '\n',
    decreases s.len() - start,
{
    if start < s.len() && s[start as int] != '\n' {
        lemma_line_end_bounds(s, start + 1);
    }
}

/// Every line from `start` on is no longer than `s`.
pub proof fn lemma_lines_short(s: Seq<char>, start: nat)
    ensures
        forall|k: int| 0 <= k < lines_from(s, start).len() ==> #[trigger] lines_from(s, start)[k].len() <= s.len(),
    decreases s.len() - start,
{
    if start < s.len() {
        let e = line_end(s, start);
        lemma_line_end_bounds(s, start);
        if e < s.len() {
            lemma_lines_short(s, e + 1);
        }
        let cut: int = if e < s.len() && e > start && s[e - 1] == '\r' { e - 1 } else { e as int };
        let rest = if e < s.len() { lines_from(s, e + 1) } else { Seq::<Seq<char>>::empty() };
        assert(lines_from(s, start) == seq![s.subrange(start as int, cut)] + rest);
        assert forall|k: int| 0 <= k < lines_from(s, start).len() implies #[trigger] lines_from(s, start)[k].len() <= s.len() by {
            if k > 0 {
                assert(lines_from(s, start)[k] == rest[k - 1]);
            }
        }
    }
}

/// The characters `v[from..to]` as a string.
pub fn string_of(v: &Vec<char>, from: usize, to: usize) -> (r: String)
    requires
        from <= to <= v@.len(),
    ensures
        r@ == v@.subrange(from as int, to as int),
{
    let mut out = String::new();
    let mut i = from;
    while i < to
        invariant
            from <= i <= to <= v@.len(),
            out@ == v@.subrange(from as int, i as int),
        decreases to - i,
    {
        push_char(&mut out, v[i]);
        i = i + 1;
        proof { assert(out@ =~= v@.subrange(from as int, i as int)); }
    }
    out
}

/// The lines of `s`, as `str::lines` gives them.
pub fn lines(s: &Vec<char>) -> (r: Vec<String>)
    ensures
        strings_view(r@) == lines_of(s@),
{
    let mut out: Vec<String> = Vec::new();
    let mut start: usize = 0;
    proof { assert(strings_view(out@) + lines_from(s@, 0) =~= lines_of(s@)); }
    while start < s.len()
        invariant
            start <= s@.len(),
            strings_view(out@) + lines_from(s@, start as nat) == lines_of(s@),
        decreases s@.len() - start,
    {
        let mut e = start;
        while e < s.len() && s[e] != '\n'
            invariant
                start <= e <= s@.len(),
                line_end(s@, start as nat) == line_end(s@, e as nat),
            decreases s@.len() - e,
        {
            e = e + 1;
        }
        let cut = if e < s.len() && e > start && s[e - 1] == '\r' { e - 1 } else { e };
        let line = string_of(s, start, cut);
        let ghost before = out@;
        out.push(line);
        proof {
            assert(line_end(s@, start as nat) == e);
            assert(strings_view(out@) =~= strings_view(before).push(line@));
        }
        if e < s.len() {
            proof {
                assert(lines_from(s@, start as nat) == seq![line@] + lines_from(s@, (e + 1) as nat));
                assert(strings_view(out@) + lines_from(s@, (e + 1) as nat)
                    =~= strings_view(before) + lines_from(s@, start as nat));
            }
            start = e + 1;
        } else {
            proof {
                assert(lines_from(s@, start as nat) == seq![line@] + Seq::<Seq<char>>::empty());
                assert(lines_from(s@, e as nat) =~= Seq::<Seq<char>>::empty());
                assert(strings_view(out@) + lines_from(s@, e as nat)
                    =~= strings_view(before) + lines_from(s@, start as nat));
            }
            start = e;
        }
    }
    proof { assert(strings_view(out@) =~= lines_of(s@)); }
    out
}

// ── Characters ───────────────────────────────────────────────────────────────

/// What `char::is_whitespace` accepts: the Unicode `White_Space` characters.
pub open spec fn is_whitespace(c: char) -> bool {
    ||| c == '\t' || c == '\n' || c == '\u{0B}' || c == '\u{0C}' || c == '\r' || c == ' '
    ||| c == '\u{85}' || c == '\u{A0}' || c == '\u{1680}'
    ||| ('\u{2000}' <= c && c <= '\u{200A}')
    ||| c == '\u{2028}' || c == '\u{2029}' || c == '\u{202F}' || c == '\u{205F}' || c == '\u{3000}'
}

pub fn is_whitespace_char(c: char) -> (r: bool)
    ensures
        r == is_whitespace(c),
{
    c == '\t' || c == '\n' || c == '\u{0B}' || c == '\u{0C}' || c == '\r' || c == ' '
        || c == '\u{85}' || c == '\u{A0}' || c == '\u{1680}'
        || ('\u{2000}' <= c && c <= '\u{200A}')
        || c == '\u{2028}' || c == '\u{2029}' || c == '\u{202F}' || c == '\u{205F}' || c == '\u{3000}'
}

/// ASCII letter or digit.
pub open spec fn is_ascii_alnum(c: char) -> bool {
    ('a' <= c && c <= 'z') || ('A' <= c && c <= 'Z') || ('0' <= c && c <= '9')
}

pub fn is_ascii_alnum_char(c: char) -> (r: bool)
    ensures
        r == is_ascii_alnum(c),
{
    ('a' <= c && c <= 'z') || ('A' <= c && c <= 'Z') || ('0' <= c && c <= '9')
}

/// The number of leading whitespace characters of `s[from..]`.
pub open spec fn trim_start_from(s: Seq<char>, from: nat) -> nat
    decreases s.len() - from,
{
    if from < s.len() && is_whitespace(s[from as int]) { trim_start_from(s, from + 1) } else { from }
}

/// The end of `s[..to]` once trailing whitespace is dropped.
pub open spec fn trim_end_to(s: Seq<char>, lo: nat, to: nat) -> nat
    decreases to,
{
    if to > lo && to <= s.len() && is_whitespace(s[to - 1]) { trim_end_to(s, lo, (to - 1) as nat) } else { to }
}

/// `s` without leading and trailing whitespace, as `str::trim` gives it.
pub open spec fn trim_text(s: Seq<char>) -> Seq<char> {
    let a = trim_start_from(s, 0);
    s.subrange(a as int, trim_end_to(s, a, s.len()) as int)
}

proof fn lemma_trim_start_bounds(s: Seq<char>, from: nat)
    requires
        from <= s.len(),
    ensures
        from <= trim_start_from(s, from) <= s.len(),
    decreases s.len() - from,
{
    if from < s.len() && is_whitespace(s[from as int]) {
        lemma_trim_start_bounds(s, from + 1);
    }
}

proof fn lemma_trim_end_bounds(s: Seq<char>, lo: nat, to: nat)
    requires
        lo <= to <= s.len(),
    ensures
        lo <= trim_end_to(s, lo, to) <= to,
    decreases to,
{
    if to > lo && is_whitespace(s[to - 1]) {
        lemma_trim_end_bounds(s, lo, (to - 1) as nat);
    }
}

/// `s` without leading and trailing whitespace.
pub fn trim(s: &Vec<char>) -> (r: String)
    ensures
        r@ == trim_text(s@),
{
    let mut a: usize = 0;
    while a < s.len() && is_whitespace_char(s[a])
        invariant
            a <= s@.len(),
            trim_start_from(s@, 0) == trim_start_from(s@, a as nat),
        decreases s@.len() - a,
    {
        a = a + 1;
    }
    let mut b: usize = s.len();
    while b > a && is_whitespace_char(s[b - 1])
        invariant
            a <= b <= s@.len(),
            trim_end_to(s@, a as nat, s@.len()) == trim_end_to(s@, a as nat, b as nat),
        decreases b,
    {
        b = b - 1;
    }
    string_of(s, a, b)
}

} // verus!
