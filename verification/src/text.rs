use vstd::prelude::*;
use vstd::std_specs::iter::IteratorSpec;

verus! {

broadcast use {vstd::string::axiom_spec_iter, vstd::string::next_postcondition};

/// Appends one character to `s`.
///
/// Wraps `String::push`, which std documents as appending the given `char`
/// to the end of the string; the contract says exactly that.
#[verifier::external_body]
pub(crate) fn push_char(s: &mut String, c: char)
    ensures
        final(s)@ == old(s)@.push(c),
{
    s.push(c);
}

/// The decimal digit for `d` (taken modulo 10).
pub open spec fn digit_char(d: nat) -> char {
    let d = d % 10;
    if d == 0 { '0' } else if d == 1 { '1' } else if d == 2 { '2' } else if d == 3 { '3' }
    else if d == 4 { '4' } else if d == 5 { '5' } else if d == 6 { '6' } else if d == 7 { '7' }
    else if d == 8 { '8' } else { '9' }
}

/// `n` written in decimal, without leading zeros.
pub open spec fn nat_text(n: nat) -> Seq<char>
    decreases n,
{
    if n < 10 {
        seq![digit_char(n)]
    } else {
        nat_text(n / 10).push(digit_char(n % 10))
    }
}

/// `i` written in decimal, with a leading `-` when negative.
pub open spec fn int_text(i: int) -> Seq<char> {
    if i < 0 {
        seq!['-'] + nat_text((-i) as nat)
    } else {
        nat_text(i as nat)
    }
}

fn digit(d: u64) -> (c: char)
    requires
        d < 10,
    ensures
        c == digit_char(d as nat),
{
    if d == 0 { '0' } else if d == 1 { '1' } else if d == 2 { '2' } else if d == 3 { '3' }
    else if d == 4 { '4' } else if d == 5 { '5' } else if d == 6 { '6' } else if d == 7 { '7' }
    else if d == 8 { '8' } else { '9' }
}

fn u64_to_string(n: u64) -> (s: String)
    ensures
        s@ == nat_text(n as nat),
    decreases n,
{
    if n < 10 {
        let mut s = String::new();
        push_char(&mut s, digit(n));
        proof { assert(s@ =~= seq![digit_char(n as nat)]); }
        s
    } else {
        let mut s = u64_to_string(n / 10);
        push_char(&mut s, digit(n % 10));
        s
    }
}

/// `n` in decimal.
pub fn usize_to_string(n: usize) -> (s: String)
    ensures
        s@ == nat_text(n as nat),
{
    u64_to_string(n as u64)
}

/// `i` in decimal, as `{}` formats an `i64`.
pub fn i64_to_string(i: i64) -> (s: String)
    ensures
        s@ == int_text(i as int),
{
    if i < 0 {
        let m: u64 = if i == i64::MIN { 9223372036854775808u64 } else { (-i) as u64 };
        let digits = u64_to_string(m);
        let mut s = String::from_str("-");
        proof { reveal_strlit("-"); }
        s.append(digits.as_str());
        proof { assert(s@ =~= seq!['-'] + nat_text((-i) as nat)); }
        s
    } else {
        u64_to_string(i as u64)
    }
}

/// `b` as `{}` formats a `bool`.
pub open spec fn bool_text(b: bool) -> Seq<char> {
    if b { seq!['t', 'r', 'u', 'e'] } else { seq!['f', 'a', 'l', 's', 'e'] }
}

/// `b` as `{}` formats a `bool`.
pub fn bool_to_string(b: bool) -> (s: String)
    ensures
        s@ == bool_text(b),
{
    proof {
        reveal_strlit("true");
        reveal_strlit("false");
    }
    if b { String::from_str("true") } else { String::from_str("false") }
}

/// The texts of `parts`, separated by `sep`.
pub open spec fn join_text(parts: Seq<Seq<char>>, sep: Seq<char>) -> Seq<char>
    decreases parts.len(),
{
    if parts.len() == 0 {
        Seq::empty()
    } else if parts.len() == 1 {
        parts[0]
    } else {
        join_text(parts.drop_last(), sep) + sep + parts.last()
    }
}

pub open spec fn strings_view(v: Seq<String>) -> Seq<Seq<char>> {
    v.map_values(|s: String| s@)
}

/// `parts` joined with `sep`, as `[String]::join` does.
pub fn join(parts: &Vec<String>, sep: &str) -> (r: String)
    ensures
        r@ == join_text(strings_view(parts@), sep@),
{
    let mut out = String::new();
    let mut i: usize = 0;
    while i < parts.len()
        invariant
            i <= parts@.len(),
            out@ == join_text(strings_view(parts@.subrange(0, i as int)), sep@),
        decreases parts@.len() - i,
    {
        let ghost prev = out@;
        if i > 0 {
            out.append(sep);
        }
        out.append(parts[i].as_str());
        proof {
            let sub = strings_view(parts@.subrange(0, i + 1));
            assert(sub.drop_last() =~= strings_view(parts@.subrange(0, i as int)));
            assert(sub.last() == parts@[i as int]@);
            if i == 0 {
                assert(out@ =~= sub[0]);
            } else {
                assert(out@ =~= join_text(sub.drop_last(), sep@) + sep@ + sub.last());
            }
        }
        i = i + 1;
    }
    assert(parts@.subrange(0, parts@.len() as int) =~= parts@);
    out
}

/// `s` followed by `t`.
pub fn concat(s: &str, t: &str) -> (r: String)
    ensures
        r@ == s@ + t@,
{
    let mut out = String::from_str(s);
    out.append(t);
    out
}

/// The characters of `s`, in order.
pub fn chars_of(s: &str) -> (v: Vec<char>)
    ensures
        v@ == s@,
{
    let mut out: Vec<char> = Vec::new();
    for c in it: s.chars()
        invariant
            it.seq() == s@,
            out@ == s@.subrange(0, it.index() as int),
    {
        let ghost i = it.index();
        out.push(c);
        proof { assert(out@ =~= s@.subrange(0, i + 1)); }
    }
    proof { assert(out@ =~= s@); }
    out
}

// ── Ordering texts ───────────────────────────────────────────────────────────

/// `a` sorts before `b`: character by character, a proper prefix first (the
/// order of `String`'s `Ord`).
pub open spec fn text_lt(a: Seq<char>, b: Seq<char>) -> bool
    decreases a.len(),
{
    if a.len() == 0 {
        b.len() > 0
    } else if b.len() == 0 {
        false
    } else if a[0] != b[0] {
        a[0] < b[0]
    } else {
        text_lt(a.drop_first(), b.drop_first())
    }
}

pub open spec fn text_le(a: Seq<char>, b: Seq<char>) -> bool {
    !text_lt(b, a)
}

pub proof fn lemma_text_lt_irreflexive(a: Seq<char>)
    ensures
        !text_lt(a, a),
    decreases a.len(),
{
    if a.len() > 0 {
        lemma_text_lt_irreflexive(a.drop_first());
    }
}

pub proof fn lemma_text_lt_transitive(a: Seq<char>, b: Seq<char>, c: Seq<char>)
    requires
        text_lt(a, b),
        text_lt(b, c),
    ensures
        text_lt(a, c),
    decreases a.len(),
{
    if a.len() > 0 && b.len() > 0 && c.len() > 0 && a[0] == b[0] && b[0] == c[0] {
        lemma_text_lt_transitive(a.drop_first(), b.drop_first(), c.drop_first());
    }
}

pub proof fn lemma_text_lt_total(a: Seq<char>, b: Seq<char>)
    ensures
        a == b || text_lt(a, b) || text_lt(b, a),
    decreases a.len(),
{
    if a.len() > 0 && b.len() > 0 && a[0] == b[0] {
        lemma_text_lt_total(a.drop_first(), b.drop_first());
        if a.drop_first() == b.drop_first() {
            assert(a =~= seq![a[0]] + a.drop_first());
            assert(b =~= seq![b[0]] + b.drop_first());
        }
    } else if a.len() == 0 && b.len() == 0 {
        assert(a =~= b);
    }
}

fn text_less(a: &Vec<char>, b: &Vec<char>) -> (r: bool)
    ensures
        r == text_lt(a@, b@),
{
    let mut i: usize = 0;
    proof {
        assert(a@.skip(0) =~= a@);
        assert(b@.skip(0) =~= b@);
    }
    while i < a.len() && i < b.len() && a[i] == b[i]
        invariant
            i <= a@.len(),
            i <= b@.len(),
            text_lt(a@, b@) == text_lt(a@.skip(i as int), b@.skip(i as int)),
        decreases a@.len() - i,
    {
        proof {
            assert(a@.skip(i as int).drop_first() =~= a@.skip(i + 1));
            assert(b@.skip(i as int).drop_first() =~= b@.skip(i + 1));
        }
        i = i + 1;
    }
    if i == a.len() {
        i < b.len()
    } else if i == b.len() {
        false
    } else {
        a[i] < b[i]
    }
}

/// The position of a smallest text of `w`.
fn min_index(w: &Vec<String>) -> (m: usize)
    requires
        w@.len() > 0,
    ensures
        m < w@.len(),
        forall|k: int| 0 <= k < w@.len() ==> text_le(w@[m as int]@, #[trigger] w@[k]@),
{
    let mut m: usize = 0;
    let mut best = chars_of(w[0].as_str());
    let mut k: usize = 1;
    proof { lemma_text_lt_irreflexive(w@[0]@); }
    while k < w.len()
        invariant
            0 < k <= w@.len(),
            m < k,
            best@ == w@[m as int]@,
            forall|j: int| 0 <= j < k ==> text_le(w@[m as int]@, #[trigger] w@[j]@),
        decreases w@.len() - k,
    {
        let c = chars_of(w[k].as_str());
        if text_less(&c, &best) {
            proof {
                assert forall|j: int| 0 <= j < k + 1 implies text_le(w@[k as int]@, #[trigger] w@[j]@) by {
                    if j < k {
                        if text_lt(w@[j]@, w@[k as int]@) {
                            lemma_text_lt_transitive(w@[j]@, w@[k as int]@, w@[m as int]@);
                        }
                    } else {
                        lemma_text_lt_irreflexive(w@[k as int]@);
                    }
                }
            }
            m = k;
            best = c;
        }
        k = k + 1;
    }
    m
}

/// The texts of `v` in ascending order.
pub fn sort_texts(v: Vec<String>) -> (r: Vec<String>)
    ensures
        strings_view(r@).to_multiset() == strings_view(v@).to_multiset(),
        forall|i: int, j: int| 0 <= i < j < r@.len() ==> text_le(#[trigger] r@[i]@, #[trigger] r@[j]@),
{
    broadcast use {vstd::seq_lib::group_to_multiset_ensures, vstd::multiset::group_multiset_axioms};
    let ghost all = strings_view(v@).to_multiset();
    let mut w = v;
    let mut out: Vec<String> = Vec::new();
    proof { assert(strings_view(out@).to_multiset() =~= vstd::multiset::Multiset::<Seq<char>>::empty()); }
    while w.len() > 0
        invariant
            strings_view(out@).to_multiset().add(strings_view(w@).to_multiset()) == all,
            forall|i: int, j: int| 0 <= i < j < out@.len() ==> text_le(#[trigger] out@[i]@, #[trigger] out@[j]@),
            forall|i: int, k: int| 0 <= i < out@.len() && 0 <= k < w@.len() ==> text_le(#[trigger] out@[i]@, #[trigger] w@[k]@),
        decreases w@.len(),
    {
        let m = min_index(&w);
        let ghost w0 = w@;
        let ghost o0 = out@;
        let x = w.remove(m);
        proof {
            assert(strings_view(w@) =~= strings_view(w0).remove(m as int));
            assert(strings_view(w0)[m as int] == x@);
        }
        out.push(x);
        proof {
            assert(strings_view(out@) =~= strings_view(o0).push(x@));
            assert(strings_view(w0).contains(x@)) by {
                assert(strings_view(w0)[m as int] == x@);
            }
            let sw0 = strings_view(w0);
            let so0 = strings_view(o0);
            assert(strings_view(w@).to_multiset() == sw0.remove(m as int).to_multiset());
            vstd::seq_lib::to_multiset_remove(sw0, m as int);
            assert(strings_view(out@).to_multiset() == so0.push(x@).to_multiset());
            vstd::seq_lib::to_multiset_build(so0, x@);
            vstd::seq_lib::to_multiset_contains(sw0, x@);
            assert(sw0.to_multiset().count(x@) > 0);
            assert(strings_view(out@).to_multiset().add(strings_view(w@).to_multiset())
                =~= so0.to_multiset().add(sw0.to_multiset()));
            assert forall|i: int, j: int| 0 <= i < j < out@.len() implies text_le(#[trigger] out@[i]@, #[trigger] out@[j]@) by {
                if j == out@.len() - 1 {
                    assert(out@[j] == w0[m as int]);
                    assert(text_le(o0[i]@, w0[m as int]@));
                } else {
                    assert(out@[i] == o0[i] && out@[j] == o0[j]);
                }
            }
            assert forall|i: int, k: int| 0 <= i < out@.len() && 0 <= k < w@.len() implies text_le(#[trigger] out@[i]@, #[trigger] w@[k]@) by {
                let k0 = if k < m { k } else { k + 1 };
                assert(w@[k] == w0[k0]);
                if i == out@.len() - 1 {
                    assert(text_le(w0[m as int]@, w0[k0]@));
                } else {
                    assert(out@[i] == o0[i]);
                    assert(text_le(o0[i]@, w0[k0]@));
                }
            }
        }
    }
    proof { assert(strings_view(w@).to_multiset() =~= vstd::multiset::Multiset::<Seq<char>>::empty()); }
    out
}

/// `a` and `b` hold the same characters.
pub fn same_text(a: &str, b: &str) -> (r: bool)
    ensures
        r == (a@ == b@),
{
    let x = chars_of(a);
    let y = chars_of(b);
    if x.len() != y.len() {
        return false;
    }
    let mut k: usize = 0;
    while k < x.len()
        invariant
            x@ == a@,
            y@ == b@,
            x@.len() == y@.len(),
            k <= x@.len(),
            forall|j: int| 0 <= j < k ==> x@[j] == y@[j],
        decreases x@.len() - k,
    {
        if x[k] != y[k] {
            proof { assert(x@[k as int] != y@[k as int]); }
            return false;
        }
        k = k + 1;
    }
    proof { assert(x@ =~= y@); }
    true
}

/// Some text of `v` equals `s`.
pub fn contains_string(v: &Vec<String>, s: &str) -> (r: bool)
    ensures
        r == strings_view(v@).contains(s@),
{
    let mut i: usize = 0;
    while i < v.len()
        invariant
            i <= v@.len(),
            forall|j: int| 0 <= j < i ==> v@[j]@ != s@,
        decreases v@.len() - i,
    {
        if same_text(v[i].as_str(), s) {
            proof { assert(strings_view(v@)[i as int] == s@); }
            return true;
        }
        i = i + 1;
    }
    proof {
        if strings_view(v@).contains(s@) {
            let j = choose|j: int| 0 <= j < v@.len() && strings_view(v@)[j] == s@;
            assert(v@[j]@ == s@);
        }
    }
    false
}

} // verus!
