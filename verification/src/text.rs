//! Text helpers: decimal formatting, character sequences and strings.
use vstd::prelude::*;
use vstd::string::StrSliceExecFns;

verus! {

/// The character of a decimal digit.
pub open spec fn digit_char(d: nat) -> char {
    (48 + d) as char
}

/// The decimal representation of a natural number, most significant digit
/// first, without leading zeros.
pub open spec fn decimal(n: nat) -> Seq<char>
    decreases n,
{
    if n < 10 {
        seq![digit_char(n)]
    } else {
        decimal(n / 10).push(digit_char(n % 10))
    }
}

/// A decimal representation is never empty, and has at least two digits
/// exactly when the number is at least ten.
pub proof fn lemma_decimal_len(n: nat)
    ensures
        decimal(n).len() >= 1,
        n >= 10 <==> decimal(n).len() >= 2,
    decreases n,
{
    if n >= 10 {
        lemma_decimal_len(n / 10);
    }
}

/// Distinct numbers have distinct decimal representations.
pub proof fn lemma_decimal_injective(a: nat, b: nat)
    ensures
        decimal(a) == decimal(b) ==> a == b,
    decreases a,
{
    if decimal(a) == decimal(b) {
        lemma_decimal_len(a);
        lemma_decimal_len(b);
        if a >= 10 && b >= 10 {
            assert(decimal(a).drop_last() =~= decimal(a / 10));
            assert(decimal(b).drop_last() =~= decimal(b / 10));
            lemma_decimal_injective(a / 10, b / 10);
            assert(decimal(a).last() == digit_char(a % 10));
            assert(decimal(b).last() == digit_char(b % 10));
        } else if a < 10 && b < 10 {
            assert(decimal(a)[0] == digit_char(a));
            assert(decimal(b)[0] == digit_char(b));
        }
    }
}

/// Whether two strings hold the same characters.
pub(crate) fn str_equal(a: &str, b: &str) -> (r: bool)
    ensures
        r == (a@ == b@),
{
    let x = chars_of(a);
    let y = chars_of(b);
    if x.len() != y.len() {
        return false;
    }
    let n = x.len();
    let mut i: usize = 0;
    while i < n
        invariant
            x@ == a@,
            y@ == b@,
            n == x@.len(),
            n == y@.len(),
            0 <= i <= n,
            forall|k: int| 0 <= k < i ==> x@[k] == y@[k],
        decreases n - i,
    {
        if x[i] != y[i] {
            return false;
        }
        i = i + 1;
    }
    assert(a@ =~= b@);
    true
}

/// Appends one character to a string.
///
/// Calls `String::push`, which appends the given char to the end of the
/// string; the contract states exactly that.
#[verifier::external_body]
pub(crate) fn push_char(s: &mut String, c: char)
    ensures
        final(s)@ == old(s)@.push(c),
{
    s.push(c);
}

fn append_decimal(n: u32, s: &mut String)
    ensures
        final(s)@ == old(s)@ + decimal(n as nat),
    decreases n,
{
    if n >= 10 {
        append_decimal(n / 10, s);
    }
    let d: u32 = n % 10;
    let c: char = (48u8 + (d as u8)) as char;
    push_char(s, c);
    proof {
        assert(decimal(n as nat) == if n < 10 { seq![digit_char(n as nat)] } else { decimal((n / 10) as nat).push(digit_char((n % 10) as nat)) });
    }
    assert(s@ =~= old(s)@ + decimal(n as nat));
}

/// The decimal representation of `n`.
pub fn decimal_string(n: u32) -> (s: String)
    ensures
        s@ == decimal(n as nat),
{
    let mut s = String::new();
    append_decimal(n, &mut s);
    assert(s@ =~= decimal(n as nat));
    s
}

/// The name a session shows until a title arrives: the id itself when it has
/// at most twelve characters, otherwise its last eight characters.
pub open spec fn display_name_for(id: Seq<char>) -> Seq<char> {
    if id.len() <= 12 {
        id
    } else {
        id.subrange(id.len() - 8, id.len() as int)
    }
}

/// The name a session shows until a title arrives (see [`display_name_for`]).
pub fn derive_display_name(session_id: &str) -> (name: String)
    ensures
        name@ == display_name_for(session_id@),
{
    let n = session_id.unicode_len();
    if n <= 12 {
        session_id.to_owned()
    } else {
        session_id.substring_char(n - 8, n).to_owned()
    }
}

/// The characters of a string.
pub fn chars_of(s: &str) -> (v: Vec<char>)
    ensures
        v@ == s@,
{
    broadcast use vstd::string::group_string_axioms;

    let mut v: Vec<char> = Vec::new();
    for c in iter: s.chars()
        invariant
            iter.seq() == s@,
            v@ == iter.seq().take(iter.index() as int),
    {
        v.push(c);
    }
    assert(v@ =~= s@);
    v
}

/// The string made of a sequence of characters.
pub fn string_of(cs: &Vec<char>) -> (s: String)
    ensures
        s@ == cs@,
{
    let mut s = String::new();
    let n = cs.len();
    let mut i: usize = 0;
    while i < n
        invariant
            n == cs@.len(),
            0 <= i <= n,
            s@ == cs@.take(i as int),
        decreases n - i,
    {
        push_char(&mut s, cs[i]);
        i = i + 1;
        assert(s@ =~= cs@.take(i as int));
    }
    assert(cs@.take(n as int) =~= cs@);
    s
}

/// Whether `list` holds a string with the characters of `x`.
pub fn list_contains(list: &[String], x: &str) -> (r: bool)
    ensures
        r == crate::types::strs_view(list@).contains(x@),
{
    let n = list.len();
    let mut i: usize = 0;
    while i < n
        invariant
            n == list@.len(),
            0 <= i <= n,
            forall|k: int| 0 <= k < i ==> list@[k]@ != x@,
        decreases n - i,
    {
        if str_equal(list[i].as_str(), x) {
            assert(crate::types::strs_view(list@)[i as int] == x@);
            return true;
        }
        i = i + 1;
    }
    proof {
        if crate::types::strs_view(list@).contains(x@) {
            let k = choose|k: int| 0 <= k < list@.len() && crate::types::strs_view(list@)[k] == x@;
            assert(list@[k]@ == x@);
        }
    }
    false
}

/// Lexicographic order of character sequences by code point: the order of
/// `String` in Rust, whose byte order of UTF-8 agrees with it.
pub open spec fn lex_le(a: Seq<char>, b: Seq<char>) -> bool
    decreases a.len(),
{
    if a.len() == 0 {
        true
    } else if b.len() == 0 {
        false
    } else if a[0] != b[0] {
        (a[0] as int) < (b[0] as int)
    } else {
        lex_le(a.drop_first(), b.drop_first())
    }
}

/// The sequence is in lexicographic order.
pub open spec fn lex_sorted(s: Seq<Seq<char>>) -> bool {
    forall|i: int, j: int| 0 <= i < j < s.len() ==> lex_le(#[trigger] s[i], #[trigger] s[j])
}

/// Any two sequences are ordered one way or the other.
pub proof fn lemma_lex_total(a: Seq<char>, b: Seq<char>)
    ensures
        lex_le(a, b) || lex_le(b, a),
    decreases a.len(),
{
    if a.len() > 0 && b.len() > 0 && a[0] == b[0] {
        lemma_lex_total(a.drop_first(), b.drop_first());
    }
}

/// The lexicographic order is transitive.
pub proof fn lemma_lex_transitive(a: Seq<char>, b: Seq<char>, c: Seq<char>)
    requires
        lex_le(a, b),
        lex_le(b, c),
    ensures
        lex_le(a, c),
    decreases a.len(),
{
    if a.len() > 0 && b.len() > 0 && c.len() > 0 && a[0] == b[0] && b[0] == c[0] {
        lemma_lex_transitive(a.drop_first(), b.drop_first(), c.drop_first());
    }
}

/// Whether `a` comes before or equals `b` in lexicographic order.
pub fn lex_le_exec(a: &str, b: &str) -> (r: bool)
    ensures
        r == lex_le(a@, b@),
{
    let x = chars_of(a);
    let y = chars_of(b);
    let mut i: usize = 0;
    assert(a@.skip(0) =~= a@);
    assert(b@.skip(0) =~= b@);
    while i < x.len() && i < y.len() && x[i] == y[i]
        invariant
            x@ == a@,
            y@ == b@,
            0 <= i <= x@.len(),
            i <= y@.len(),
            lex_le(a@, b@) == lex_le(a@.skip(i as int), b@.skip(i as int)),
        decreases x@.len() - i,
    {
        proof {
            assert(a@.skip(i as int).drop_first() =~= a@.skip(i + 1));
            assert(b@.skip(i as int).drop_first() =~= b@.skip(i + 1));
        }
        i = i + 1;
    }
    if i == x.len() {
        true
    } else if i == y.len() {
        false
    } else {
        x[i] < y[i]
    }
}

/// The strings of `v` in lexicographic order.
pub fn sort_strings(v: Vec<String>) -> (r: Vec<String>)
    ensures
        lex_sorted(crate::types::strs_view(r@)),
        crate::types::strs_view(r@).to_multiset() == crate::types::strs_view(v@).to_multiset(),
{
    broadcast use vstd::seq_lib::group_to_multiset_ensures;

    let mut r: Vec<String> = Vec::new();
    let n = v.len();
    let mut i: usize = 0;
    proof {
        assert(crate::types::strs_view(r@) =~= crate::types::strs_view(v@).take(0));
    }
    while i < n
        invariant
            n == v@.len(),
            0 <= i <= n,
            lex_sorted(crate::types::strs_view(r@)),
            crate::types::strs_view(r@).to_multiset() == crate::types::strs_view(v@).take(
                i as int,
            ).to_multiset(),
        decreases n - i,
    {
        let x = v[i].clone();
        let ghost rs = crate::types::strs_view(r@);
        let mut p: usize = 0;
        while p < r.len() && lex_le_exec(r[p].as_str(), x.as_str())
            invariant
                rs == crate::types::strs_view(r@),
                0 <= p <= r@.len(),
                forall|k: int| 0 <= k < p ==> lex_le(#[trigger] rs[k], x@),
            decreases r@.len() - p,
        {
            p = p + 1;
        }
        proof {
            if p < r@.len() {
                lemma_lex_total(rs[p as int], x@);
            }
        }
        r.insert(p, x);
        proof {
            let ns = crate::types::strs_view(r@);
            assert(ns =~= rs.insert(p as int, x@));
            assert forall|a: int, b: int| 0 <= a < b < ns.len() implies lex_le(
                #[trigger] ns[a],
                #[trigger] ns[b],
            ) by {
                if b < p {
                    assert(ns[a] == rs[a] && ns[b] == rs[b]);
                } else if b == p {
                    assert(ns[a] == rs[a]);
                } else if a > p {
                    assert(ns[a] == rs[a - 1] && ns[b] == rs[b - 1]);
                } else if a == p {
                    assert(ns[b] == rs[b - 1]);
                    if b - 1 > p {
                        assert(lex_le(rs[p as int], rs[b - 1]));
                        lemma_lex_transitive(x@, rs[p as int], rs[b - 1]);
                    }
                } else {
                    assert(ns[a] == rs[a] && ns[b] == rs[b - 1]);
                }
            }
            vstd::seq_lib::to_multiset_insert(rs, p as int, x@);
            assert(x@ == crate::types::strs_view(v@)[i as int]);
            vstd::seq_lib::to_multiset_build(crate::types::strs_view(v@).take(i as int), x@);
            assert(crate::types::strs_view(v@).take(i + 1) =~= crate::types::strs_view(v@).take(
                i as int,
            ).push(x@));
        }
        i = i + 1;
    }
    proof {
        assert(crate::types::strs_view(v@).take(n as int) =~= crate::types::strs_view(v@));
    }
    r
}

/// Two sequences ordered both ways are equal.
pub proof fn lemma_lex_antisymmetric(a: Seq<char>, b: Seq<char>)
    requires
        lex_le(a, b),
        lex_le(b, a),
    ensures
        a == b,
    decreases a.len(),
{
    if a.len() == 0 {
        assert(a =~= b);
    } else {
        lemma_lex_antisymmetric(a.drop_first(), b.drop_first());
        assert(a =~= b) by {
            assert forall|k: int| 0 <= k < a.len() implies a[k] == b[k] by {
                if k > 0 {
                    assert(a.drop_first()[k - 1] == b.drop_first()[k - 1]);
                }
            }
        }
    }
}

/// A lexicographically sorted arrangement of a multiset is unique.
pub proof fn lemma_sorted_unique(a: Seq<Seq<char>>, b: Seq<Seq<char>>)
    requires
        lex_sorted(a),
        lex_sorted(b),
        a.to_multiset() == b.to_multiset(),
    ensures
        a == b,
    decreases a.len(),
{
    vstd::seq_lib::to_multiset_len(a);
    vstd::seq_lib::to_multiset_len(b);
    if a.len() == 0 {
        assert(a =~= b);
    } else {
        vstd::seq_lib::to_multiset_contains(a, a[0]);
        vstd::seq_lib::to_multiset_contains(b, a[0]);
        vstd::seq_lib::to_multiset_contains(a, b[0]);
        vstd::seq_lib::to_multiset_contains(b, b[0]);
        assert(a.contains(a[0]));
        assert(b.contains(b[0]));
        let j = choose|j: int| 0 <= j < b.len() && b[j] == a[0];
        let i = choose|i: int| 0 <= i < a.len() && a[i] == b[0];
        if j > 0 {
            assert(lex_le(b[0], b[j]));
        } else {
            lemma_lex_total(b[0], b[0]);
        }
        if i > 0 {
            assert(lex_le(a[0], a[i]));
        } else {
            lemma_lex_total(a[0], a[0]);
        }
        lemma_lex_antisymmetric(a[0], b[0]);
        vstd::seq_lib::to_multiset_remove(a, 0);
        vstd::seq_lib::to_multiset_remove(b, 0);
        assert(a.remove(0) =~= a.drop_first());
        assert(b.remove(0) =~= b.drop_first());
        assert(lex_sorted(a.drop_first())) by {
            assert forall|x: int, y: int| 0 <= x < y < a.drop_first().len() implies lex_le(
                #[trigger] a.drop_first()[x],
                #[trigger] a.drop_first()[y],
            ) by {
                assert(lex_le(a[x + 1], a[y + 1]));
            }
        }
        assert(lex_sorted(b.drop_first())) by {
            assert forall|x: int, y: int| 0 <= x < y < b.drop_first().len() implies lex_le(
                #[trigger] b.drop_first()[x],
                #[trigger] b.drop_first()[y],
            ) by {
                assert(lex_le(b[x + 1], b[y + 1]));
            }
        }
        lemma_sorted_unique(a.drop_first(), b.drop_first());
        assert(a =~= b) by {
            assert forall|k: int| 0 <= k < a.len() implies a[k] == b[k] by {
                if k > 0 {
                    assert(a.drop_first()[k - 1] == b.drop_first()[k - 1]);
                }
            }
        }
    }
}

/// The lexicographically sorted arrangement of the elements of `s`.
pub open spec fn sorted_of(s: Seq<Seq<char>>) -> Seq<Seq<char>> {
    choose|t: Seq<Seq<char>>| lex_sorted(t) && t.to_multiset() == s.to_multiset()
}

/// A sorted arrangement of `s` is the sorted arrangement of `s`.
pub proof fn lemma_sorted_of(s: Seq<Seq<char>>, t: Seq<Seq<char>>)
    requires
        lex_sorted(t),
        t.to_multiset() == s.to_multiset(),
    ensures
        sorted_of(s) == t,
{
    let u = sorted_of(s);
    assert(lex_sorted(u) && u.to_multiset() == s.to_multiset());
    lemma_sorted_unique(u, t);
}

/// `x` put into the sorted sequence `t` before the first element it does
/// not exceed.
pub open spec fn insert_sorted(x: Seq<char>, t: Seq<Seq<char>>) -> Seq<Seq<char>>
    decreases t.len(),
{
    if t.len() == 0 {
        seq![x]
    } else if lex_le(x, t[0]) {
        t.insert(0, x)
    } else {
        insert_sorted(x, t.drop_first()).insert(0, t[0])
    }
}

/// The elements of `s` sorted by insertion.
pub open spec fn sort_seq(s: Seq<Seq<char>>) -> Seq<Seq<char>>
    decreases s.len(),
{
    if s.len() == 0 {
        Seq::empty()
    } else {
        insert_sorted(s.last(), sort_seq(s.drop_last()))
    }
}

/// Inserting into a sorted sequence keeps it sorted and adds the element.
proof fn lemma_insert_sorted(x: Seq<char>, t: Seq<Seq<char>>)
    requires
        lex_sorted(t),
    ensures
        lex_sorted(insert_sorted(x, t)),
        insert_sorted(x, t).to_multiset() == t.to_multiset().insert(x),
        insert_sorted(x, t).len() == t.len() + 1,
        forall|k: int|
            0 <= k < insert_sorted(x, t).len() ==> #[trigger] insert_sorted(x, t)[k] == x || t.contains(
                insert_sorted(x, t)[k],
            ),
    decreases t.len(),
{
    broadcast use vstd::seq_lib::group_to_multiset_ensures;

    let r = insert_sorted(x, t);
    if t.len() == 0 {
        assert(seq![x] =~= Seq::<Seq<char>>::empty().push(x));
        assert(t =~= Seq::<Seq<char>>::empty());
    } else if lex_le(x, t[0]) {
        assert forall|i: int, j: int| 0 <= i < j < r.len() implies lex_le(#[trigger] r[i], #[trigger] r[j]) by {
            if i == 0 {
                if j - 1 > 0 {
                    lemma_lex_transitive(x, t[0], t[j - 1]);
                }
            } else {
                assert(r[i] == t[i - 1] && r[j] == t[j - 1]);
            }
        }
        assert forall|k: int| 0 <= k < r.len() implies #[trigger] r[k] == x || t.contains(r[k]) by {
            if k > 0 {
                assert(r[k] == t[k - 1]);
            }
        }
    } else {
        let rest = t.drop_first();
        assert(lex_sorted(rest)) by {
            assert forall|i: int, j: int| 0 <= i < j < rest.len() implies lex_le(#[trigger] rest[i], #[trigger] rest[j]) by {
                assert(rest[i] == t[i + 1] && rest[j] == t[j + 1]);
            }
        }
        lemma_insert_sorted(x, rest);
        let r1 = insert_sorted(x, rest);
        lemma_lex_total(x, t[0]);
        assert forall|k: int| 0 <= k < r1.len() implies lex_le(t[0], #[trigger] r1[k]) by {
            if r1[k] != x {
                assert(rest.contains(r1[k]));
                let m = choose|m: int| 0 <= m < rest.len() && rest[m] == r1[k];
                assert(rest[m] == t[m + 1]);
            }
        }
        assert forall|i: int, j: int| 0 <= i < j < r.len() implies lex_le(#[trigger] r[i], #[trigger] r[j]) by {
            if i == 0 {
                assert(r[j] == r1[j - 1]);
            } else {
                assert(r[i] == r1[i - 1] && r[j] == r1[j - 1]);
            }
        }
        assert forall|k: int| 0 <= k < r.len() implies #[trigger] r[k] == x || t.contains(r[k]) by {
            if k > 0 {
                assert(r[k] == r1[k - 1]);
                if r1[k - 1] != x {
                    let m = choose|m: int| 0 <= m < rest.len() && rest[m] == r1[k - 1];
                    assert(t[m + 1] == rest[m]);
                }
            }
        }
        assert(t =~= rest.insert(0, t[0]));
    }
}

/// Insertion sort gives a sorted arrangement.
proof fn lemma_sort_seq(s: Seq<Seq<char>>)
    ensures
        lex_sorted(sort_seq(s)),
        sort_seq(s).to_multiset() == s.to_multiset(),
    decreases s.len(),
{
    broadcast use vstd::seq_lib::group_to_multiset_ensures;

    if s.len() == 0 {
        assert(sort_seq(s) =~= s);
    } else {
        lemma_sort_seq(s.drop_last());
        lemma_insert_sorted(s.last(), sort_seq(s.drop_last()));
        assert(s =~= s.drop_last().push(s.last()));
    }
}

/// The sorted arrangement holds exactly the elements of `s`.
pub proof fn lemma_sorted_of_contains(s: Seq<Seq<char>>, x: Seq<char>)
    ensures
        sorted_of(s).contains(x) <==> s.contains(x),
{
    broadcast use vstd::seq_lib::group_to_multiset_ensures;

    lemma_sort_seq(s);
    lemma_sorted_of(s, sort_seq(s));
    let t = sorted_of(s);
    vstd::seq_lib::to_multiset_contains(t, x);
    vstd::seq_lib::to_multiset_contains(s, x);
    assert(t.to_multiset().count(x) == s.to_multiset().count(x));
}

} // verus!
