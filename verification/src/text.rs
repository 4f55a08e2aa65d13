//! Verified text utilities: lexicographic ordering of character sequences,
//! joining fragments with a separator, splitting on a character, and
//! whitespace trimming.

use vstd::prelude::*;

verus! {

/// Lexicographic "less than or equal" on character sequences, ordering
/// characters by their Unicode scalar values.
pub open spec fn lex_le(a: Seq<char>, b: Seq<char>) -> bool
    decreases a.len(),
{
    if a.len() == 0 {
        true
    } else if b.len() == 0 {
        false
    } else if a[0] == b[0] {
        lex_le(a.drop_first(), b.drop_first())
    } else {
        (a[0] as u32) < (b[0] as u32)
    }
}

/// Strict lexicographic order.
pub open spec fn lex_lt(a: Seq<char>, b: Seq<char>) -> bool {
    lex_le(a, b) && a != b
}

/// Distinct characters have distinct Unicode scalar values.
pub proof fn lemma_char_cast_distinct(c: char, d: char)
    requires
        c != d,
    ensures
        c as u32 != d as u32,
{
    vstd::utf8::char_u32_cast(c, c as u32);
    vstd::utf8::char_u32_cast(d, d as u32);
}

pub proof fn lemma_lex_le_refl(a: Seq<char>)
    ensures
        lex_le(a, a),
    decreases a.len(),
{
    if a.len() > 0 {
        lemma_lex_le_refl(a.drop_first());
    }
}

pub proof fn lemma_lex_le_total(a: Seq<char>, b: Seq<char>)
    ensures
        lex_le(a, b) || lex_le(b, a),
    decreases a.len(),
{
    if a.len() > 0 && b.len() > 0 {
        if a[0] == b[0] {
            lemma_lex_le_total(a.drop_first(), b.drop_first());
        } else {
            lemma_char_cast_distinct(a[0], b[0]);
        }
    }
}

pub proof fn lemma_lex_le_antisym(a: Seq<char>, b: Seq<char>)
    requires
        lex_le(a, b),
        lex_le(b, a),
    ensures
        a == b,
    decreases a.len(),
{
    if a.len() == 0 {
        assert(b.len() == 0);
        assert(a =~= b);
    } else {
        assert(b.len() > 0);
        assert(a[0] == b[0]);
        lemma_lex_le_antisym(a.drop_first(), b.drop_first());
        assert(a.drop_first().len() == a.len() - 1);
        assert(b.drop_first().len() == b.len() - 1);
        assert(a.len() == b.len());
        assert forall|i: int| 0 <= i < a.len() implies a[i] == b[i] by {
            if i > 0 {
                assert(a[i] == a.drop_first()[i - 1]);
                assert(b[i] == b.drop_first()[i - 1]);
            }
        }
        assert(a =~= b);
    }
}

pub proof fn lemma_lex_le_trans(a: Seq<char>, b: Seq<char>, c: Seq<char>)
    requires
        lex_le(a, b),
        lex_le(b, c),
    ensures
        lex_le(a, c),
    decreases a.len(),
{
    if a.len() > 0 && b.len() > 0 && c.len() > 0 {
        if a[0] == b[0] && b[0] == c[0] {
            lemma_lex_le_trans(a.drop_first(), b.drop_first(), c.drop_first());
        }
    }
}

pub proof fn lemma_lex_lt_trans(a: Seq<char>, b: Seq<char>, c: Seq<char>)
    requires
        lex_lt(a, b),
        lex_lt(b, c),
    ensures
        lex_lt(a, c),
{
    lemma_lex_le_trans(a, b, c);
    if a == c {
        lemma_lex_le_antisym(a, b);
    }
}

/// Concatenation of `items` with `sep` placed between adjacent items.
pub open spec fn join_with(items: Seq<Seq<char>>, sep: Seq<char>) -> Seq<char>
    decreases items.len(),
{
    if items.len() == 0 {
        Seq::empty()
    } else if items.len() == 1 {
        items[0]
    } else {
        items[0] + sep + join_with(items.drop_first(), sep)
    }
}

/// Joining one more item appends a separator and the item.
pub proof fn lemma_join_with_push(items: Seq<Seq<char>>, sep: Seq<char>, x: Seq<char>)
    ensures
        join_with(items.push(x), sep) == if items.len() == 0 {
            x
        } else {
            join_with(items, sep) + sep + x
        },
    decreases items.len(),
{
    if items.len() == 0 {
        assert(items.push(x)[0] == x);
    } else if items.len() == 1 {
        assert(items.push(x)[0] == items[0]);
        assert(items.push(x).drop_first() =~= seq![x]);
        assert(join_with(seq![x], sep) == x);
    } else {
        lemma_join_with_push(items.drop_first(), sep, x);
        assert(items.push(x).drop_first() =~= items.drop_first().push(x));
        assert(items.push(x)[0] == items[0]);
        assert(join_with(items.push(x), sep) =~= join_with(items, sep) + sep + x);
    }
}

/// Equal sequences with a common prefix have equal remainders.
pub proof fn lemma_prefix_cancel(x: Seq<char>, a: Seq<char>, b: Seq<char>)
    requires
        x + a == x + b,
    ensures
        a == b,
{
    assert((x + a).len() == x.len() + a.len());
    assert((x + b).len() == x.len() + b.len());
    assert(a.len() == b.len());
    assert forall|i: int| 0 <= i < a.len() implies a[i] == b[i] by {
        assert((x + a)[x.len() + i] == a[i]);
        assert((x + b)[x.len() + i] == b[i]);
    }
    assert(a =~= b);
}

/// A concatenation of sequences free of `ch` is free of `ch`.
pub proof fn lemma_concat_char_free(a: Seq<char>, b: Seq<char>, ch: char)
    requires
        !a.contains(ch),
        !b.contains(ch),
    ensures
        !(a + b).contains(ch),
{
    if (a + b).contains(ch) {
        let i: int = choose|i: int| 0 <= i < (a + b).len() && (a + b)[i] == ch;
        if i < a.len() {
            assert(a[i] == ch);
        } else {
            assert(b[i - a.len()] == ch);
        }
    }
}

/// Joining with the newline separator is injective on sequences of
/// newline-free lines: equal joined texts come from equal line sequences.
pub proof fn lemma_join_lines_injective(l1: Seq<Seq<char>>, l2: Seq<Seq<char>>)
    requires
        l1.len() >= 1,
        l2.len() >= 1,
        forall|i: int| 0 <= i < l1.len() ==> !(#[trigger] l1[i]).contains('\n'),
        forall|i: int| 0 <= i < l2.len() ==> !(#[trigger] l2[i]).contains('\n'),
        join_with(l1, "\n    "@) == join_with(l2, "\n    "@),
    ensures
        l1 == l2,
    decreases l1.len(),
{
    let sep = "\n    "@;
    reveal_strlit("\n    ");
    assert(sep.len() == 5);
    assert(sep[0] == '\n');
    let j1 = join_with(l1, sep);
    let j2 = join_with(l2, sep);
    let h1 = l1[0];
    let h2 = l2[0];
    if l1.len() == 1 && l2.len() == 1 {
        assert(l1 =~= l2);
    } else if l1.len() == 1 {
        assert(j2 == h2 + sep + join_with(l2.drop_first(), sep));
        assert(j2[h2.len() as int] == '\n');
        assert(j1 == h1);
        assert(h2.len() < j2.len());
        assert(h1[h2.len() as int] == '\n');
        assert(h1.contains('\n'));
        assert(false);
    } else if l2.len() == 1 {
        assert(j1 == h1 + sep + join_with(l1.drop_first(), sep));
        assert(j1[h1.len() as int] == '\n');
        assert(j2 == h2);
        assert(h1.len() < j1.len());
        assert(h2[h1.len() as int] == '\n');
        assert(h2.contains('\n'));
        assert(false);
    } else {
        assert(j1 == h1 + sep + join_with(l1.drop_first(), sep));
        assert(j2 == h2 + sep + join_with(l2.drop_first(), sep));
        assert(j1[h1.len() as int] == '\n');
        assert(j2[h2.len() as int] == '\n');
        if h1.len() < h2.len() {
            assert(j2[h1.len() as int] == h2[h1.len() as int]);
            assert(h2.contains('\n'));
            assert(false);
        }
        if h2.len() < h1.len() {
            assert(j1[h2.len() as int] == h1[h2.len() as int]);
            assert(h1.contains('\n'));
            assert(false);
        }
        assert(h1.len() == h2.len());
        assert forall|i: int| 0 <= i < h1.len() implies h1[i] == h2[i] by {
            assert(j1[i] == h1[i]);
            assert(j2[i] == h2[i]);
        }
        assert(h1 =~= h2);
        assert(h1 + sep + join_with(l1.drop_first(), sep) == h1 + sep + join_with(
            l2.drop_first(),
            sep,
        ));
        assert((h1 + sep) + join_with(l1.drop_first(), sep) == (h1 + sep) + join_with(
            l2.drop_first(),
            sep,
        ));
        lemma_prefix_cancel(
            h1 + sep,
            join_with(l1.drop_first(), sep),
            join_with(l2.drop_first(), sep),
        );
        assert forall|i: int| 0 <= i < l1.drop_first().len()
            implies !(#[trigger] l1.drop_first()[i]).contains('\n') by {
            assert(l1.drop_first()[i] == l1[i + 1]);
        }
        assert forall|i: int| 0 <= i < l2.drop_first().len()
            implies !(#[trigger] l2.drop_first()[i]).contains('\n') by {
            assert(l2.drop_first()[i] == l2[i + 1]);
        }
        lemma_join_lines_injective(l1.drop_first(), l2.drop_first());
        assert(l1.drop_first().len() == l1.len() - 1);
        assert(l2.drop_first().len() == l2.len() - 1);
        assert(l1.len() == l2.len());
        assert forall|i: int| 0 <= i < l1.len() implies l1[i] == l2[i] by {
            if i > 0 {
                assert(l1[i] == l1.drop_first()[i - 1]);
                assert(l2[i] == l2.drop_first()[i - 1]);
            }
        }
        assert(l1 =~= l2);
    }
}

/// Mapping a function over a sequence commutes with `push`.
pub proof fn lemma_map_values_push<A, B>(s: Seq<A>, f: spec_fn(A) -> B, x: A)
    ensures
        s.push(x).map_values(f) =~= s.map_values(f).push(f(x)),
{
}

/// Index of the first occurrence of `c` in `s` (meaningful only when present).
pub open spec fn first_index_of(s: Seq<char>, c: char) -> int
    decreases s.len(),
{
    if s.len() == 0 {
        0
    } else if s[0] == c {
        0
    } else {
        1 + first_index_of(s.drop_first(), c)
    }
}

pub proof fn lemma_first_index(s: Seq<char>, c: char)
    requires
        s.contains(c),
    ensures
        0 <= first_index_of(s, c) < s.len(),
        s[first_index_of(s, c)] == c,
        forall|j: int| 0 <= j < first_index_of(s, c) ==> s[j] != c,
    decreases s.len(),
{
    if s.len() > 0 && s[0] != c {
        let i = choose|i: int| 0 <= i < s.len() && s[i] == c;
        assert(s.drop_first()[i - 1] == c);
        assert(s.drop_first().contains(c));
        lemma_first_index(s.drop_first(), c);
        let k = first_index_of(s, c);
        assert(s[k] == s.drop_first()[k - 1]);
        assert forall|j: int| 0 <= j < k implies s[j] != c by {
            if j > 0 {
                assert(s[j] == s.drop_first()[j - 1]);
            }
        }
    }
}

/// The first occurrence is the one before which `c` does not appear.
pub proof fn lemma_first_index_is(s: Seq<char>, c: char, k: int)
    requires
        0 <= k < s.len(),
        s[k] == c,
        forall|j: int| 0 <= j < k ==> s[j] != c,
    ensures
        first_index_of(s, c) == k,
    decreases s.len(),
{
    if s[0] != c {
        assert(s.drop_first()[k - 1] == c);
        assert forall|j: int| 0 <= j < k - 1 implies s.drop_first()[j] != c by {
            assert(s.drop_first()[j] == s[j + 1]);
        }
        lemma_first_index_is(s.drop_first(), c, k - 1);
    }
}

/// The fragments of `s` delimited by `sep`: one fragment more than there are
/// separators, each free of `sep`, in order.
pub open spec fn split_on(s: Seq<char>, sep: char) -> Seq<Seq<char>>
    decreases s.len(),
    via split_on_decreases
{
    if !s.contains(sep) {
        seq![s]
    } else {
        let i = first_index_of(s, sep);
        seq![s.take(i)] + split_on(s.skip(i + 1), sep)
    }
}

#[via_fn]
proof fn split_on_decreases(s: Seq<char>, sep: char) {
    if s.contains(sep) {
        lemma_first_index(s, sep);
    }
}

/// Splits `s` at every occurrence of `sep`.
pub fn split_str(s: &str, sep: char) -> (r: Vec<String>)
    ensures
        r@.map_values(|t: String| t@) == split_on(s@, sep),
{
    let len = s.unicode_len();
    let mut r: Vec<String> = Vec::new();
    let mut pos: usize = 0;
    let mut i: usize = 0;
    proof {
        assert(s@.skip(0) =~= s@);
        assert(r@.map_values(|t: String| t@) =~= Seq::<Seq<char>>::empty());
    }
    loop
        invariant
            pos <= i <= len,
            len == s@.len(),
            forall|j: int| pos <= j < i ==> s@[j] != sep,
            split_on(s@, sep) == r@.map_values(|t: String| t@) + split_on(
                s@.skip(pos as int),
                sep,
            ),
        decreases len - i,
    {
        let ghost done = r@.map_values(|t: String| t@);
        let ghost rest = s@.skip(pos as int);
        if i == len {
            let frag = String::from_str(s.substring_char(pos, len));
            proof {
                assert(frag@ =~= rest);
                assert(!rest.contains(sep)) by {
                    assert forall|j: int| 0 <= j < rest.len() implies rest[j] != sep by {
                        assert(rest[j] == s@[pos + j]);
                    }
                }
                assert(split_on(rest, sep) == seq![rest]);
                lemma_map_values_push(r@, |t: String| t@, frag);
                assert(done + seq![rest] =~= done.push(frag@));
            }
            r.push(frag);
            return r;
        }
        let c = s.get_char(i);
        if c == sep {
            let frag = String::from_str(s.substring_char(pos, i));
            proof {
                assert(rest[i - pos] == sep);
                assert(rest.contains(sep));
                assert forall|j: int| 0 <= j < i - pos implies rest[j] != sep by {
                    assert(rest[j] == s@[pos + j]);
                }
                lemma_first_index_is(rest, sep, i - pos);
                assert(split_on(rest, sep) == seq![rest.take(i - pos)] + split_on(
                    rest.skip(i - pos + 1),
                    sep,
                ));
                assert(frag@ =~= rest.take(i - pos));
                assert(rest.skip(i - pos + 1) =~= s@.skip(i + 1));
                lemma_map_values_push(r@, |t: String| t@, frag);
                assert(done + (seq![rest.take(i - pos)] + split_on(s@.skip(i + 1), sep))
                    =~= done.push(frag@) + split_on(s@.skip(i + 1), sep));
            }
            r.push(frag);
            pos = i + 1;
            i = i + 1;
        } else {
            i = i + 1;
        }
    }
}

/// Joins strings with `sep` between adjacent items.
pub fn join_strings(v: &Vec<String>, sep: &str) -> (r: String)
    ensures
        r@ == join_with(v@.map_values(|s: String| s@), sep@),
{
    let n = v.len();
    let ghost items = v@.map_values(|s: String| s@);
    let mut out = String::new();
    let mut i: usize = 0;
    proof {
        assert(items.take(0) =~= Seq::<Seq<char>>::empty());
    }
    while i < n
        invariant
            i <= n,
            n == v@.len(),
            items == v@.map_values(|s: String| s@),
            out@ == join_with(items.take(i as int), sep@),
        decreases n - i,
    {
        if i > 0 {
            out.append(sep);
        }
        out.append(v[i].as_str());
        proof {
            lemma_join_with_push(items.take(i as int), sep@, items[i as int]);
            assert(items.take(i + 1) =~= items.take(i as int).push(items[i as int]));
            assert(items[i as int] == v@[i as int]@);
            assert(out@ =~= join_with(items.take(i + 1), sep@));
        }
        i = i + 1;
    }
    proof {
        assert(items.take(n as int) =~= items);
    }
    out
}

/// The whitespace characters that `trim_spec` removes: the ASCII part of
/// Unicode's white-space set.
pub open spec fn is_space_char(c: char) -> bool {
    c == ' ' || c == '\t' || c == '\n' || c == '\r' || c == '\u{b}' || c == '\u{c}'
}

pub open spec fn trim_start_spec(s: Seq<char>) -> Seq<char>
    decreases s.len(),
{
    if s.len() > 0 && is_space_char(s[0]) {
        trim_start_spec(s.drop_first())
    } else {
        s
    }
}

pub open spec fn trim_end_spec(s: Seq<char>) -> Seq<char>
    decreases s.len(),
{
    if s.len() > 0 && is_space_char(s.last()) {
        trim_end_spec(s.drop_last())
    } else {
        s
    }
}

/// `s` with leading and trailing whitespace removed.
pub open spec fn trim_spec(s: Seq<char>) -> Seq<char> {
    trim_end_spec(trim_start_spec(s))
}

fn is_space(c: char) -> (r: bool)
    ensures
        r == is_space_char(c),
{
    c == ' ' || c == '\t' || c == '\n' || c == '\r' || c == '\u{b}' || c == '\u{c}'
}

/// Removes leading and trailing whitespace from `s`.
pub fn trim_str(s: &str) -> (r: String)
    ensures
        r@ == trim_spec(s@),
{
    let len = s.unicode_len();
    let mut start: usize = 0;
    proof {
        assert(s@.skip(0) =~= s@);
    }
    while start < len && is_space(s.get_char(start))
        invariant
            start <= len,
            len == s@.len(),
            trim_start_spec(s@) == trim_start_spec(s@.skip(start as int)),
        decreases len - start,
    {
        proof {
            assert(s@.skip(start as int).drop_first() =~= s@.skip(start + 1));
        }
        start = start + 1;
    }
    let ghost u = s@.skip(start as int);
    proof {
        assert(trim_start_spec(u) == u);
        assert(u.take(len - start as int) =~= u);
    }
    let mut end: usize = len;
    while end > start && is_space(s.get_char(end - 1))
        invariant
            start <= end <= len,
            len == s@.len(),
            u == s@.skip(start as int),
            trim_end_spec(u) == trim_end_spec(u.take(end - start as int)),
        decreases end,
    {
        proof {
            let t = u.take(end - start as int);
            assert(t.last() == s@[end - 1]);
            assert(t.drop_last() =~= u.take(end - 1 - start as int));
        }
        end = end - 1;
    }
    let r = String::from_str(s.substring_char(start, end));
    proof {
        let t = u.take(end - start as int);
        assert(r@ =~= t);
        if end > start {
            assert(t.last() == s@[end - 1]);
        }
        assert(trim_end_spec(t) == t);
    }
    r
}

/// Compares two string slices in the order of `lex_le`.
pub fn str_le(a: &str, b: &str) -> (r: bool)
    ensures
        r == lex_le(a@, b@),
{
    let a_len = a.unicode_len();
    let b_len = b.unicode_len();
    let mut i: usize = 0;
    proof {
        assert(a@.skip(0) =~= a@);
        assert(b@.skip(0) =~= b@);
    }
    loop
        invariant
            i <= a_len,
            i <= b_len,
            a_len == a@.len(),
            b_len == b@.len(),
            lex_le(a@, b@) == lex_le(a@.skip(i as int), b@.skip(i as int)),
        decreases a_len - i,
    {
        if i == a_len {
            return true;
        }
        if i == b_len {
            return false;
        }
        let ca = a.get_char(i);
        let cb = b.get_char(i);
        if ca == cb {
            proof {
                assert(a@.skip(i as int).drop_first() =~= a@.skip(i + 1));
                assert(b@.skip(i as int).drop_first() =~= b@.skip(i + 1));
            }
            i = i + 1;
        } else {
            return (ca as u32) < (cb as u32);
        }
    }
}

/// Compares two string slices in the order of `lex_lt`.
pub fn str_lt(a: &str, b: &str) -> (r: bool)
    ensures
        r == lex_lt(a@, b@),
{
    let le = str_le(a, b);
    let ge = str_le(b, a);
    proof {
        lemma_lex_le_total(a@, b@);
        if le && ge {
            lemma_lex_le_antisym(a@, b@);
        }
        if le && a@ == b@ {
            lemma_lex_le_refl(a@);
        }
    }
    le && !ge
}

} // verus!
