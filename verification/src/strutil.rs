//! Verified string helpers: equality, lexicographic order, splitting,
//! trimming and number formatting over `Seq<char>` views.

use vstd::prelude::*;

verus! {

/// Two characters with the same code point are the same character.
pub proof fn lemma_char_injective(a: char, b: char)
    requires
        a as u32 == b as u32,
    ensures
        a == b,
{
    vstd::utf8::char_u32_cast(a, a as u32);
    vstd::utf8::char_u32_cast(b, b as u32);
}

/// Strict lexicographic order on character sequences, by code point.
pub open spec fn lex_lt(a: Seq<char>, b: Seq<char>) -> bool
    decreases a.len(),
{
    if b.len() == 0 {
        false
    } else if a.len() == 0 {
        true
    } else if a[0] != b[0] {
        (a[0] as u32) < (b[0] as u32)
    } else {
        lex_lt(a.skip(1), b.skip(1))
    }
}

/// Non-strict lexicographic order.
pub open spec fn lex_le(a: Seq<char>, b: Seq<char>) -> bool {
    lex_lt(a, b) || a == b
}

/// The lexicographic order is total: two sequences are always comparable.
pub proof fn lemma_lex_total(a: Seq<char>, b: Seq<char>)
    ensures
        lex_le(a, b) || lex_le(b, a),
    decreases a.len(),
{
    if b.len() == 0 || a.len() == 0 {
        if a.len() == 0 && b.len() == 0 {
            assert(a =~= b);
        }
    } else if a[0] != b[0] {
        assert((a[0] as u32) != (b[0] as u32)) by {
            if a[0] as u32 == b[0] as u32 {
                lemma_char_injective(a[0], b[0]);
            }
        }
    } else {
        lemma_lex_total(a.skip(1), b.skip(1));
        if a.skip(1) == b.skip(1) {
            assert(a.skip(1).len() == a.len() - 1);
            assert(b.skip(1).len() == b.len() - 1);
            assert forall|k: int| 0 <= k < a.len() implies a[k] == b[k] by {
                if k >= 1 {
                    assert(a[k] == a.skip(1)[k - 1]);
                    assert(b[k] == b.skip(1)[k - 1]);
                }
            }
            assert(a =~= b);
        }
    }
}

/// The order is antisymmetric: mutual `lex_le` forces equality.
pub proof fn lemma_lex_antisym(a: Seq<char>, b: Seq<char>)
    ensures
        lex_le(a, b) && lex_le(b, a) ==> a == b,
    decreases a.len(),
{
    if a.len() != 0 && b.len() != 0 && a[0] == b[0] {
        lemma_lex_antisym(a.skip(1), b.skip(1));
        if a.skip(1) == b.skip(1) && a[0] == b[0] {
            assert(a.skip(1).len() == a.len() - 1);
            assert(b.skip(1).len() == b.len() - 1);
            assert forall|k: int| 0 <= k < a.len() implies a[k] == b[k] by {
                if k >= 1 {
                    assert(a[k] == a.skip(1)[k - 1]);
                    assert(b[k] == b.skip(1)[k - 1]);
                }
            }
            assert(a =~= b);
        }
    }
}

/// The strict order is transitive.
pub proof fn lemma_lex_lt_trans(a: Seq<char>, b: Seq<char>, c: Seq<char>)
    requires
        lex_lt(a, b),
        lex_lt(b, c),
    ensures
        lex_lt(a, c),
    decreases a.len(),
{
    // lex_lt(b, c) forces c to be non-empty.
    assert(c.len() > 0);
    if a.len() == 0 {
    } else {
        // lex_lt(a, b) with a non-empty forces b non-empty.
        assert(b.len() > 0);
        let a0 = a[0];
        let b0 = b[0];
        let c0 = c[0];
        if a0 != b0 {
            assert((a0 as u32) < (b0 as u32));
            if b0 != c0 {
                assert((b0 as u32) < (c0 as u32));
            }
            assert((a0 as u32) < (c0 as u32));
            assert(a0 != c0) by {
                if a0 == c0 {
                    assert(a0 as u32 == c0 as u32);
                }
            }
        } else if b0 != c0 {
            assert((b0 as u32) < (c0 as u32));
            assert((a0 as u32) < (c0 as u32));
            assert(a0 != c0) by {
                if a0 == c0 {
                    assert(a0 as u32 == c0 as u32);
                }
            }
        } else {
            lemma_lex_lt_trans(a.skip(1), b.skip(1), c.skip(1));
        }
    }
}

/// The order is transitive.
pub proof fn lemma_lex_trans(a: Seq<char>, b: Seq<char>, c: Seq<char>)
    requires
        lex_le(a, b),
        lex_le(b, c),
    ensures
        lex_le(a, c),
{
    if a != b && b != c {
        lemma_lex_lt_trans(a, b, c);
    }
}

/// Character-by-character equality of two string slices.
pub fn str_eq(a: &str, b: &str) -> (r: bool)
    ensures
        r == (a@ == b@),
{
    let alen = a.unicode_len();
    let blen = b.unicode_len();
    if alen != blen {
        assert(a@ != b@);
        return false;
    }
    let mut i: usize = 0;
    while i < alen
        invariant
            alen == a@.len(),
            alen == b@.len(),
            i <= alen,
            forall|j: int| 0 <= j < i ==> a@[j] == b@[j],
        decreases alen - i,
    {
        if a.get_char(i) != b.get_char(i) {
            return false;
        }
        i = i + 1;
    }
    proof {
        assert(a@ =~= b@);
    }
    true
}

/// Decides `lex_le` on two string slices.
pub fn str_lex_le(a: &str, b: &str) -> (r: bool)
    ensures
        r == lex_le(a@, b@),
{
    let alen = a.unicode_len();
    let blen = b.unicode_len();
    let mut i: usize = 0;
    proof {
        assert(a@.skip(0) =~= a@);
        assert(b@.skip(0) =~= b@);
    }
    loop
        invariant
            alen == a@.len(),
            blen == b@.len(),
            i <= alen,
            i <= blen,
            lex_lt(a@, b@) == lex_lt(a@.skip(i as int), b@.skip(i as int)),
            (a@ == b@) == (a@.skip(i as int) == b@.skip(i as int)),
        decreases alen - i,
    {
        if i >= alen {
            proof {
                if i >= blen {
                    assert(a@.skip(i as int).len() == 0);
                    assert(b@.skip(i as int).len() == 0);
                    assert(a@.skip(i as int) =~= b@.skip(i as int));
                }
            }
            return true;
        }
        if i >= blen {
            assert(a@.skip(i as int).len() > 0);
            assert(b@.skip(i as int).len() == 0);
            assert(a@.skip(i as int) != b@.skip(i as int));
            return false;
        }
        let ca = a.get_char(i);
        let cb = b.get_char(i);
        proof {
            assert(a@.skip(i as int)[0] == ca && b@.skip(i as int)[0] == cb);
            if ca as u32 == cb as u32 {
                lemma_char_injective(ca, cb);
            }
        }
        if (ca as u32) < (cb as u32) {
            return true;
        }
        if (ca as u32) > (cb as u32) {
            assert(!lex_lt(a@.skip(i as int), b@.skip(i as int)));
            assert(a@.skip(i as int) != b@.skip(i as int));
            return false;
        }
        proof {
            assert(ca == cb);
            assert(a@.skip(i as int).skip(1) =~= a@.skip(i + 1));
            assert(b@.skip(i as int).skip(1) =~= b@.skip(i + 1));
            if a@.skip(i as int) == b@.skip(i as int) {
                assert(a@.skip(i + 1) =~= b@.skip(i + 1));
            }
            if a@.skip(i + 1) == b@.skip(i + 1) {
                assert(a@.skip(i + 1).len() == alen - i - 1);
                assert(b@.skip(i + 1).len() == blen - i - 1);
                assert(a@.skip(i as int).len() == b@.skip(i as int).len());
                assert forall|k: int| 0 <= k < a@.skip(i as int).len() implies a@.skip(
                    i as int,
                )[k] == b@.skip(i as int)[k] by {
                    if k >= 1 {
                        assert(a@.skip(i as int)[k] == a@.skip(i + 1)[k - 1]);
                        assert(b@.skip(i as int)[k] == b@.skip(i + 1)[k - 1]);
                    }
                }
                assert(a@.skip(i as int) =~= b@.skip(i as int));
            }
        }
        i = i + 1;
    }
}

/// Splitting a character sequence at a separator, keeping empty pieces.
pub open spec fn split_spec(s: Seq<char>, sep: char) -> Seq<Seq<char>>
    decreases s.len(),
{
    if s.len() == 0 {
        seq![Seq::<char>::empty()]
    } else if s.last() == sep {
        split_spec(s.drop_last(), sep).push(Seq::<char>::empty())
    } else {
        let r = split_spec(s.drop_last(), sep);
        r.update(r.len() - 1, r.last().push(s.last()))
    }
}

pub proof fn lemma_split_spec_len(s: Seq<char>, sep: char)
    ensures
        split_spec(s, sep).len() >= 1,
    decreases s.len(),
{
    if s.len() > 0 {
        lemma_split_spec_len(s.drop_last(), sep);
    }
}

/// Splits a string slice on a separator character, keeping empty pieces.
pub fn split_on(s: &str, sep: char) -> (r: Vec<String>)
    ensures
        r.deep_view() == split_spec(s@, sep),
{
    let len = s.unicode_len();
    let mut pieces: Vec<String> = Vec::new();
    let mut start: usize = 0;
    let mut i: usize = 0;
    proof {
        assert(pieces.deep_view() =~= Seq::<Seq<char>>::empty());
        assert(s@.subrange(0, 0) =~= Seq::<char>::empty());
        assert(split_spec(s@.subrange(0, 0), sep) =~~= pieces.deep_view().push(s@.subrange(0, 0)));
    }
    while i < len
        invariant
            len == s@.len(),
            start <= i <= len,
            split_spec(s@.subrange(0, i as int), sep) == pieces.deep_view().push(
                s@.subrange(start as int, i as int),
            ),
        decreases len - i,
    {
        let ghost pre = s@.subrange(0, i as int);
        let ghost post = s@.subrange(0, i + 1);
        let ghost dv0 = pieces.deep_view();
        proof {
            assert(post.drop_last() =~= pre);
            assert(post.last() == s@[i as int]);
            lemma_split_spec_len(pre, sep);
        }
        let c = s.get_char(i);
        if c == sep {
            let piece = s.substring_char(start, i).to_owned();
            pieces.push(piece);
            proof {
                assert(piece@ == s@.subrange(start as int, i as int));
                assert(pieces.deep_view() =~= dv0.push(piece@));
                assert(split_spec(post, sep) == split_spec(pre, sep).push(Seq::<char>::empty()));
                assert(split_spec(pre, sep) == dv0.push(piece@));
                assert(s@.subrange(i + 1, i + 1) =~= Seq::<char>::empty());
                assert(split_spec(post, sep) == pieces.deep_view().push(s@.subrange(i + 1, i + 1)));
            }
            start = i + 1;
        } else {
            proof {
                let r = split_spec(pre, sep);
                assert(r == dv0.push(s@.subrange(start as int, i as int)));
                assert(r.last() == s@.subrange(start as int, i as int));
                assert(s@.subrange(start as int, i as int).push(s@[i as int]) =~= s@.subrange(
                    start as int,
                    i + 1,
                ));
                assert(split_spec(post, sep) == r.update(r.len() - 1, s@.subrange(start as int, i + 1)));
                assert(r.update(r.len() - 1, s@.subrange(start as int, i + 1)) =~= dv0.push(
                    s@.subrange(start as int, i + 1),
                ));
            }
        }
        i = i + 1;
    }
    let ghost dv1 = pieces.deep_view();
    let last_piece = s.substring_char(start, len).to_owned();
    pieces.push(last_piece);
    proof {
        assert(s@.subrange(0, len as int) =~= s@);
        assert(pieces.deep_view() =~= dv1.push(last_piece@));
        assert(last_piece@ == s@.subrange(start as int, len as int));
    }
    pieces
}

/// The index of the first occurrence of `c`, or the length if absent.
pub open spec fn find_char(s: Seq<char>, c: char) -> int
    decreases s.len(),
{
    if s.len() == 0 {
        0
    } else if s[0] == c {
        0
    } else {
        1 + find_char(s.skip(1), c)
    }
}

/// Finds the first occurrence of a character.
pub fn str_find(s: &str, c: char) -> (r: usize)
    ensures
        r == find_char(s@, c),
        r <= s@.len(),
        r < s@.len() ==> s@[r as int] == c,
        forall|j: int| 0 <= j < r ==> s@[j] != c,
{
    let n = s.unicode_len();
    let mut i: usize = 0;
    proof {
        assert(s@.skip(0) =~= s@);
    }
    while i < n
        invariant
            n == s@.len(),
            i <= n,
            find_char(s@, c) == i + find_char(s@.skip(i as int), c),
            forall|j: int| 0 <= j < i ==> s@[j] != c,
        decreases n - i,
    {
        proof {
            assert(s@.skip(i as int)[0] == s@[i as int]);
            assert(s@.skip(i as int).skip(1) =~= s@.skip(i + 1));
        }
        if s.get_char(i) == c {
            return i;
        }
        i = i + 1;
    }
    proof {
        assert(s@.skip(n as int).len() == 0);
    }
    n
}

/// True when the sequence ends with the given character.
pub open spec fn ends_with_char(s: Seq<char>, c: char) -> bool {
    s.len() > 0 && s.last() == c
}

/// Decides `ends_with_char` on a string slice.
pub fn str_ends_with(s: &str, c: char) -> (r: bool)
    ensures
        r == ends_with_char(s@, c),
{
    let len = s.unicode_len();
    if len == 0 {
        false
    } else {
        s.get_char(len - 1) == c
    }
}

/// A blank: space or horizontal tab.
pub open spec fn is_space(c: char) -> bool {
    c == ' ' || c == '\t'
}

/// The sequence with leading and trailing blanks removed.
pub open spec fn trim_spec(s: Seq<char>) -> Seq<char>
    decreases s.len(),
{
    if s.len() == 0 {
        s
    } else if is_space(s[0]) {
        trim_spec(s.skip(1))
    } else if is_space(s.last()) {
        trim_spec(s.drop_last())
    } else {
        s
    }
}

/// Whether the character at `i` is a blank.
fn space_at(s: &str, i: usize) -> (r: bool)
    requires
        i < s@.len(),
    ensures
        r == is_space(s@[i as int]),
{
    let c = s.get_char(i);
    c == ' ' || c == '\t'
}

/// Removes leading and trailing blanks.
pub fn str_trim(s: &str) -> (r: String)
    ensures
        r@ == trim_spec(s@),
{
    let n = s.unicode_len();
    let mut a: usize = 0;
    proof {
        assert(s@.skip(0) =~= s@);
    }
    while a < n && space_at(s, a)
        invariant
            n == s@.len(),
            a <= n,
            trim_spec(s@) == trim_spec(s@.skip(a as int)),
        decreases n - a,
    {
        proof {
            assert(s@.skip(a as int)[0] == s@[a as int]);
            assert(s@.skip(a as int).skip(1) =~= s@.skip(a + 1));
        }
        a = a + 1;
    }
    let ghost t = s@.skip(a as int);
    proof {
        assert(a < n ==> !is_space(t[0]));
        assert(a == n ==> t.len() == 0);
        assert(t.subrange(0, t.len() as int) =~= t);
    }
    let mut b: usize = n;
    while b > a && space_at(s, b - 1)
        invariant
            n == s@.len(),
            a <= b <= n,
            t == s@.skip(a as int),
            a < n ==> !is_space(t[0]),
            a == n ==> t.len() == 0,
            trim_spec(s@) == trim_spec(t.subrange(0, b - a)),
        decreases b,
    {
        proof {
            let piece = t.subrange(0, b - a);
            assert(piece.len() > 0);
            assert(piece.last() == s@[b - 1]);
            assert(is_space(piece.last()));
            if !is_space(piece[0]) {
                assert(piece.drop_last() =~= t.subrange(0, b - 1 - a));
            } else {
                assert(a < n && !is_space(t[0]));
                assert(piece[0] == t[0]);
            }
        }
        b = b - 1;
    }
    let ghost piece = t.subrange(0, b - a);
    proof {
        if b == a {
            assert(piece.len() == 0);
        } else {
            assert(piece[0] == t[0]);
            assert(!is_space(piece[0]));
            assert(piece.last() == s@[b - 1]);
            assert(!is_space(piece.last()));
        }
        assert(trim_spec(piece) == piece);
        assert(s@.subrange(a as int, b as int) =~= piece);
    }
    s.substring_char(a, b).to_owned()
}

/// The pieces joined with a comma between each two.
pub open spec fn join_comma(vs: Seq<Seq<char>>) -> Seq<char>
    decreases vs.len(),
{
    if vs.len() == 0 {
        Seq::empty()
    } else if vs.len() == 1 {
        vs[0]
    } else {
        join_comma(vs.drop_last()) + seq![','] + vs.last()
    }
}

/// Joins the pieces with commas.
pub fn str_join_comma(vs: &Vec<String>) -> (r: String)
    ensures
        r@ == join_comma(vs.deep_view()),
{
    let n = vs.len();
    let mut out = String::new();
    let mut i: usize = 0;
    proof {
        assert(vs.deep_view().subrange(0, 0).len() == 0);
        assert(out@ =~= join_comma(vs.deep_view().subrange(0, 0)));
    }
    while i < n
        invariant
            n == vs@.len(),
            i <= n,
            out@ == join_comma(vs.deep_view().subrange(0, i as int)),
        decreases n - i,
    {
        let ghost pre = vs.deep_view().subrange(0, i as int);
        let ghost post = vs.deep_view().subrange(0, i + 1);
        proof {
            assert(post.drop_last() =~= pre);
            assert(post.last() == vs.deep_view()[i as int]);
        }
        if i > 0 {
            out.append(",");
            proof {
                reveal_strlit(",");
                assert(","@ =~= seq![',']);
            }
        }
        out.append(vs[i].as_str());
        proof {
            if i == 0 {
                assert(pre.len() == 0);
                assert(out@ =~= post[0]);
                assert(post.len() == 1);
            } else {
                assert(out@ =~= join_comma(pre) + seq![','] + post.last());
            }
        }
        i = i + 1;
    }
    proof {
        assert(vs.deep_view().subrange(0, n as int) =~= vs.deep_view());
    }
    out
}

/// True when the sequence contains the given character.
pub open spec fn contains_char(s: Seq<char>, c: char) -> bool {
    exists|i: int| 0 <= i < s.len() && s[i] == c
}

/// Decides `contains_char` on a string slice.
pub fn str_contains(s: &str, c: char) -> (r: bool)
    ensures
        r == contains_char(s@, c),
{
    let len = s.unicode_len();
    let mut i: usize = 0;
    while i < len
        invariant
            len == s@.len(),
            i <= len,
            forall|j: int| 0 <= j < i ==> s@[j] != c,
        decreases len - i,
    {
        if s.get_char(i) == c {
            return true;
        }
        i = i + 1;
    }
    false
}

} // verus!
