//! Text helpers: splitting, ordering, trimming and case folding, all stated over
//! the `Seq<char>` view of a string.

use vstd::prelude::*;
use vstd::string::*;
use vstd::std_specs::iter::IteratorSpec;

verus! {

/// The pieces of `s` between occurrences of `sep`. There is always one piece more
/// than there are separators, so empty pieces are kept.
pub open spec fn split_on(s: Seq<char>, sep: char) -> Seq<Seq<char>>
    decreases s.len(),
{
    if s.len() == 0 {
        seq![Seq::<char>::empty()]
    } else {
        let before = split_on(s.drop_last(), sep);
        if s.last() == sep {
            before.push(Seq::<char>::empty())
        } else {
            before.drop_last().push(before.last().push(s.last()))
        }
    }
}

/// Strict lexicographic order by code point: `a` comes before `b`.
pub open spec fn lex_lt(a: Seq<char>, b: Seq<char>) -> bool
    decreases a.len(),
{
    if b.len() == 0 {
        false
    } else if a.len() == 0 {
        true
    } else if a[0] != b[0] {
        (a[0] as int) < (b[0] as int)
    } else {
        lex_lt(a.drop_first(), b.drop_first())
    }
}

/// `lex_lt` is transitive.
pub proof fn lemma_lex_lt_transitive(a: Seq<char>, b: Seq<char>, c: Seq<char>)
    requires
        lex_lt(a, b),
        lex_lt(b, c),
    ensures
        lex_lt(a, c),
    decreases a.len(),
{
    if a.len() > 0 && b.len() > 0 && c.len() > 0 && a[0] == b[0] && b[0] == c[0] {
        lemma_lex_lt_transitive(a.drop_first(), b.drop_first(), c.drop_first());
    }
}

/// Two different strings are ordered one way or the other.
pub proof fn lemma_lex_lt_total(a: Seq<char>, b: Seq<char>)
    ensures
        a == b || lex_lt(a, b) || lex_lt(b, a),
    decreases a.len(),
{
    if a.len() > 0 && b.len() > 0 {
        if a[0] == b[0] {
            lemma_lex_lt_total(a.drop_first(), b.drop_first());
            if a.drop_first() == b.drop_first() {
                assert(a =~= seq![a[0]] + a.drop_first());
                assert(b =~= seq![b[0]] + b.drop_first());
            }
        }
    } else if a.len() == 0 && b.len() == 0 {
        assert(a =~= b);
    }
}

/// No two strings are ordered both ways.
pub proof fn lemma_lex_lt_asymmetric(a: Seq<char>, b: Seq<char>)
    requires
        lex_lt(a, b),
    ensures
        !lex_lt(b, a),
    decreases a.len(),
{
    if a.len() > 0 && b.len() > 0 && a[0] == b[0] {
        lemma_lex_lt_asymmetric(a.drop_first(), b.drop_first());
    }
}

/// Whether `c` is white space: one of the 25 characters with the Unicode
/// property White_Space.
pub open spec fn is_white_space(c: char) -> bool {
    let code = c as int;
    ||| 0x09 <= code <= 0x0D
    ||| code == 0x20
    ||| code == 0x85
    ||| code == 0xA0
    ||| code == 0x1680
    ||| 0x2000 <= code <= 0x200A
    ||| code == 0x2028
    ||| code == 0x2029
    ||| code == 0x202F
    ||| code == 0x205F
    ||| code == 0x3000
}

/// `s` without the white space it starts with.
pub open spec fn trimmed_start(s: Seq<char>) -> Seq<char>
    decreases s.len(),
{
    if s.len() > 0 && is_white_space(s.first()) {
        trimmed_start(s.drop_first())
    } else {
        s
    }
}

/// `s` without the white space it ends with.
pub open spec fn trimmed_end(s: Seq<char>) -> Seq<char>
    decreases s.len(),
{
    if s.len() > 0 && is_white_space(s.last()) {
        trimmed_end(s.drop_last())
    } else {
        s
    }
}

/// `s` without the white space at either end.
pub open spec fn trimmed(s: Seq<char>) -> Seq<char> {
    trimmed_end(trimmed_start(s))
}

/// Trimming never makes a string longer.
pub proof fn lemma_trimmed_len(s: Seq<char>)
    ensures
        trimmed_start(s).len() <= s.len(),
        trimmed_end(s).len() <= s.len(),
        trimmed(s).len() <= s.len(),
    decreases s.len(),
{
    if s.len() > 0 {
        lemma_trimmed_len(s.drop_first());
        lemma_trimmed_len(s.drop_last());
    }
    lemma_trimmed_end_len(trimmed_start(s));
}

/// Trimming the end never makes a string longer.
proof fn lemma_trimmed_end_len(s: Seq<char>)
    ensures
        trimmed_end(s).len() <= s.len(),
    decreases s.len(),
{
    if s.len() > 0 {
        lemma_trimmed_end_len(s.drop_last());
    }
}

/// What `str::to_lowercase` returns for a string with the characters `s`.
pub uninterp spec fn lowercased(s: Seq<char>) -> Seq<char>;

/// Calls `str::trim`, which returns the string without its leading and
/// trailing white space, white space being the characters with the Unicode
/// property White_Space.
#[verifier::external_body]
pub(crate) fn trim(s: &str) -> (r: &str)
    ensures
        r@ == trimmed(s@),
{
    s.trim()
}

/// Calls `str::to_lowercase`, the Unicode lower-case mapping of a whole string.
/// The contract only names the result: the same characters always fold to the
/// same characters.
#[verifier::external_body]
pub(crate) fn to_lowercase(s: &str) -> (r: String)
    ensures
        r@ == lowercased(s@),
{
    s.to_lowercase()
}

/// Splits `s` at every `sep`, as `split_on` describes.
pub fn split(s: &str, sep: char) -> (pieces: Vec<String>)
    ensures
        pieces.deep_view() == split_on(s@, sep),
{
    let mut pieces: Vec<String> = Vec::new();
    let mut start: usize = 0;
    let mut at: usize = 0;
    let total = s.unicode_len();
    assert(s@.take(0) =~= Seq::<char>::empty());
    assert(s@.subrange(0, 0) =~= Seq::<char>::empty());
    assert(pieces.deep_view() =~= Seq::<Seq<char>>::empty());
    assert(split_on(Seq::<char>::empty(), sep) =~= Seq::<Seq<char>>::empty().push(
        Seq::<char>::empty(),
    ));
    for c in it: s.chars()
        invariant
            it.seq() == s@,
            at == it.index(),
            start <= at,
            at <= s@.len(),
            total == s@.len(),
            split_on(s@.take(at as int), sep) == pieces.deep_view().push(
                s@.subrange(start as int, at as int),
            ),
    {
        let ghost head = s@.take(at as int);
        let ghost next = s@.take(at + 1);
        assert(next.drop_last() =~= head);
        assert(next.last() == c);
        if c == sep {
            let piece = s.substring_char(start, at);
            let ghost done = pieces.deep_view();
            pieces.push(String::from_str(piece));
            start = at + 1;
            assert(pieces.deep_view() =~= done.push(piece@));
            assert(s@.subrange(start as int, at + 1) =~= Seq::<char>::empty());
        } else {
            assert(s@.subrange(start as int, at + 1) =~= s@.subrange(start as int, at as int).push(
                c,
            ));
            assert(split_on(head, sep).drop_last() =~= pieces.deep_view());
        }
        at = at + 1;
    }
    assert(s@.take(at as int) =~= s@);
    let piece = s.substring_char(start, at);
    let ghost done = pieces.deep_view();
    pieces.push(String::from_str(piece));
    assert(pieces.deep_view() =~= done.push(piece@));
    pieces
}

/// The views of the items of `items`, in order.
pub open spec fn views<T: View>(items: Seq<T>) -> Seq<T::V> {
    items.map_values(|item: T| item@)
}

/// Whether `a` and `b` hold the same characters.
pub fn same_text(a: &str, b: &str) -> (r: bool)
    ensures
        r == (a@ == b@),
{
    let mut left = a.chars();
    let mut right = b.chars();
    let ghost mut seen: Seq<char> = Seq::empty();
    loop
        invariant
            left.obeys_prophetic_iter_laws(),
            right.obeys_prophetic_iter_laws(),
            left.decrease() is Some,
            a@ == seen + left.remaining(),
            b@ == seen + right.remaining(),
        decreases left.decrease()->0,
    {
        let x = left.next();
        let y = right.next();
        match (x, y) {
            (None, None) => {
                return true;
            },
            (Some(ca), Some(cb)) => {
                if ca != cb {
                    assert(a@[seen.len() as int] == ca);
                    assert(b@[seen.len() as int] == cb);
                    return false;
                }
                proof {
                    seen = seen.push(ca);
                }
                assert(a@ =~= seen + left.remaining());
                assert(b@ =~= seen + right.remaining());
            },
            _ => {
                assert(a@.len() != b@.len());
                return false;
            },
        }
    }
}

/// Whether `a` comes strictly before `b` in lexicographic order by code point.
pub fn precedes(a: &str, b: &str) -> (r: bool)
    ensures
        r == lex_lt(a@, b@),
{
    let mut left = a.chars();
    let mut right = b.chars();
    loop
        invariant
            left.obeys_prophetic_iter_laws(),
            right.obeys_prophetic_iter_laws(),
            left.decrease() is Some,
            lex_lt(a@, b@) == lex_lt(left.remaining(), right.remaining()),
        decreases left.decrease()->0,
    {
        let y = right.next();
        match y {
            None => {
                return false;
            },
            Some(cb) => {
                let x = left.next();
                match x {
                    None => {
                        return true;
                    },
                    Some(ca) => {
                        if ca != cb {
                            return ca < cb;
                        }
                    },
                }
            },
        }
    }
}

} // verus!
