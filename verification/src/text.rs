//! Small verified text helpers shared by the statement builder and the
//! auth interceptor: decimal rendering of placeholder indexes, joining
//! fragments with a separator, placeholder-token substitution, and
//! whitespace trimming.

use vstd::prelude::*;
use vstd::string::StrSliceExecFns;
use vstd::string::StringExecFns;

verus! {

/// The character for one decimal digit.
pub open spec fn digit_char(d: int) -> char {
    if d == 0 {
        '0'
    } else if d == 1 {
        '1'
    } else if d == 2 {
        '2'
    } else if d == 3 {
        '3'
    } else if d == 4 {
        '4'
    } else if d == 5 {
        '5'
    } else if d == 6 {
        '6'
    } else if d == 7 {
        '7'
    } else if d == 8 {
        '8'
    } else {
        '9'
    }
}

/// The usual decimal rendering of a non-negative integer, most significant
/// digit first, with no leading zeros (a single `'0'` for zero).
pub open spec fn spec_dec(n: int) -> Seq<char>
    recommends
        n >= 0,
    decreases n,
{
    if n < 10 {
        seq![digit_char(n)]
    } else {
        spec_dec(n / 10).push(digit_char(n % 10))
    }
}

fn digit_str(d: usize) -> (r: &'static str)
    requires
        d < 10,
    ensures
        r@ == seq![digit_char(d as int)],
{
    proof {
        reveal_strlit("0");
        reveal_strlit("1");
        reveal_strlit("2");
        reveal_strlit("3");
        reveal_strlit("4");
        reveal_strlit("5");
        reveal_strlit("6");
        reveal_strlit("7");
        reveal_strlit("8");
        reveal_strlit("9");
    }
    if d == 0 {
        "0"
    } else if d == 1 {
        "1"
    } else if d == 2 {
        "2"
    } else if d == 3 {
        "3"
    } else if d == 4 {
        "4"
    } else if d == 5 {
        "5"
    } else if d == 6 {
        "6"
    } else if d == 7 {
        "7"
    } else if d == 8 {
        "8"
    } else {
        "9"
    }
}

/// Appends the decimal rendering of `n` to `s`.
pub fn push_dec(s: &mut String, n: usize)
    ensures
        final(s)@ == old(s)@ + spec_dec(n as int),
    decreases n,
{
    if n >= 10 {
        push_dec(s, n / 10);
        let d: usize = n % 10;
        s.append(digit_str(d));
        proof {
            assert(old(s)@ + spec_dec(n as int) =~= old(s)@ + spec_dec(n as int / 10) + seq![
                digit_char(n as int % 10),
            ]);
        }
    } else {
        s.append(digit_str(n));
    }
}

/// The fragments joined with `sep` between every two neighbours; empty for no
/// fragments, and the single fragment alone for one.
pub open spec fn spec_join(parts: Seq<Seq<char>>, sep: Seq<char>) -> Seq<char>
    decreases parts.len(),
{
    if parts.len() == 0 {
        Seq::empty()
    } else if parts.len() == 1 {
        parts[0]
    } else {
        parts[0] + sep + spec_join(parts.drop_first(), sep)
    }
}

/// The views of a sequence of strings.
pub open spec fn views_of(parts: Seq<String>) -> Seq<Seq<char>> {
    parts.map_values(|p: String| p@)
}

pub proof fn lemma_views_of_push(s: Seq<String>, x: String)
    ensures
        views_of(s.push(x)) =~= views_of(s).push(x@),
{
}

proof fn lemma_spec_join_push(parts: Seq<Seq<char>>, sep: Seq<char>, x: Seq<char>)
    ensures
        spec_join(parts.push(x), sep) == if parts.len() == 0 {
            x
        } else {
            spec_join(parts, sep) + sep + x
        },
    decreases parts.len(),
{
    if parts.len() == 0 {
        assert(parts.push(x)[0] == x);
    } else if parts.len() == 1 {
        assert(parts.push(x).drop_first() =~= seq![x]);
        assert(spec_join(seq![x], sep) == x);
        assert(parts.push(x)[0] == parts[0]);
    } else {
        assert(parts.push(x).drop_first() =~= parts.drop_first().push(x));
        lemma_spec_join_push(parts.drop_first(), sep, x);
        assert(spec_join(parts.push(x), sep) =~= spec_join(parts, sep) + sep + x);
    }
}

/// Joins the strings with the separator.
pub fn join_strings(parts: &Vec<String>, sep: &str) -> (r: String)
    ensures
        r@ == spec_join(views_of(parts@), sep@),
{
    let mut r = String::new();
    let mut i: usize = 0;
    while i < parts.len()
        invariant
            i <= parts.len(),
            r@ == spec_join(views_of(parts@).take(i as int), sep@),
        decreases parts.len() - i,
    {
        if i > 0 {
            r.append(sep);
        }
        r.append(parts[i].as_str());
        proof {
            let vs = views_of(parts@);
            lemma_spec_join_push(vs.take(i as int), sep@, vs[i as int]);
            assert(vs.take(i + 1) =~= vs.take(i as int).push(vs[i as int]));
        }
        i += 1;
    }
    proof {
        assert(views_of(parts@).take(parts@.len() as int) =~= views_of(parts@));
    }
    r
}

/// The placeholder token that raw filter templates carry where the position
/// number belongs.
pub open spec fn index_token() -> Seq<char> {
    seq!['{', 'i', 'n', 'd', 'e', 'x', '}']
}

/// Whether the placeholder token occurs in `s` starting at `i`.
pub open spec fn token_at(s: Seq<char>, i: int) -> bool {
    0 <= i && i + 7 <= s.len() && s.subrange(i, i + 7) == index_token()
}

/// `s` with every occurrence of the placeholder token, scanning left to
/// right without overlap, replaced by the decimal rendering of `n`; `s`
/// unchanged when the token does not occur.
pub open spec fn subst_index(s: Seq<char>, n: int) -> Seq<char>
    decreases s.len(),
{
    if token_at(s, 0) {
        spec_dec(n) + subst_index(s.skip(7), n)
    } else if s.len() == 0 {
        s
    } else {
        seq![s[0]] + subst_index(s.drop_first(), n)
    }
}

/// Whether the placeholder token occurs in `s` at character position `i`.
fn token_matches(s: &str, i: usize) -> (r: bool)
    requires
        i + 7 <= s@.len(),
        s@.len() <= usize::MAX,
    ensures
        r == token_at(s@, i as int),
{
    proof {
        reveal_strlit("{index}");
    }
    let token = "{index}";
    let mut j: usize = 0;
    while j < 7
        invariant
            j <= 7,
            i + 7 <= s@.len(),
            s@.len() <= usize::MAX,
            token@ == index_token(),
            forall|m: int| 0 <= m < j ==> s@[i + m] == index_token()[m],
        decreases 7 - j,
    {
        if s.get_char(i + j) != token.get_char(j) {
            proof {
                assert(s@.subrange(i as int, i + 7)[j as int] != index_token()[j as int]);
            }
            return false;
        }
        j += 1;
    }
    proof {
        assert(s@.subrange(i as int, i + 7) =~= index_token());
    }
    true
}

/// `s` with every occurrence of the placeholder token replaced by the
/// decimal rendering of `n`.
pub fn substitute_index(s: &str, n: usize) -> (r: String)
    ensures
        r@ == subst_index(s@, n as int),
{
    let len = s.unicode_len();
    let mut r = String::new();
    let mut i: usize = 0;
    proof {
        assert(s@.skip(0) =~= s@);
        assert(Seq::<char>::empty() + subst_index(s@, n as int) =~= subst_index(s@, n as int));
    }
    while i < len
        invariant
            len == s@.len(),
            i <= len,
            subst_index(s@, n as int) == r@ + subst_index(s@.skip(i as int), n as int),
        decreases len - i,
    {
        let ghost r_old = r@;
        let ghost tail = s@.skip(i as int);
        if len - i >= 7 && token_matches(s, i) {
            push_dec(&mut r, n);
            proof {
                assert(tail.subrange(0, 7) =~= s@.subrange(i as int, i + 7));
                assert(token_at(tail, 0));
                assert(tail.skip(7) =~= s@.skip(i + 7));
                assert(r_old + (spec_dec(n as int) + subst_index(s@.skip(i + 7), n as int))
                    =~= r@ + subst_index(s@.skip(i + 7), n as int));
            }
            i += 7;
        } else {
            let c = s.substring_char(i, i + 1);
            r.append(c);
            proof {
                if i + 7 <= len {
                    assert(tail.subrange(0, 7) =~= s@.subrange(i as int, i + 7));
                }
                assert(!token_at(tail, 0));
                assert(tail.drop_first() =~= s@.skip(i + 1));
                assert(seq![tail[0]] =~= s@.subrange(i as int, i + 1));
                assert(r_old + (seq![tail[0]] + subst_index(s@.skip(i + 1), n as int))
                    =~= r@ + subst_index(s@.skip(i + 1), n as int));
            }
            i += 1;
        }
    }
    proof {
        assert(s@.skip(len as int) =~= Seq::<char>::empty());
        assert(r@ =~= subst_index(s@, n as int));
    }
    r
}

/// The whitespace characters that trimming removes.
pub open spec fn is_space_char(c: char) -> bool {
    c == ' ' || c == '\t' || c == '\r' || c == '\n'
}

pub open spec fn spec_trim_start(s: Seq<char>) -> Seq<char>
    decreases s.len(),
{
    if s.len() > 0 && is_space_char(s[0]) {
        spec_trim_start(s.drop_first())
    } else {
        s
    }
}

pub open spec fn spec_trim_end(s: Seq<char>) -> Seq<char>
    decreases s.len(),
{
    if s.len() > 0 && is_space_char(s.last()) {
        spec_trim_end(s.drop_last())
    } else {
        s
    }
}

/// The sequence with leading and trailing whitespace removed.
pub open spec fn spec_trim(s: Seq<char>) -> Seq<char> {
    spec_trim_end(spec_trim_start(s))
}

proof fn lemma_trim_start_skip(s: Seq<char>, k: int)
    requires
        0 <= k <= s.len(),
        forall|j: int| 0 <= j < k ==> is_space_char(s[j]),
    ensures
        spec_trim_start(s) == spec_trim_start(s.skip(k)),
    decreases k,
{
    if k > 0 {
        assert(s.drop_first() =~= s.skip(1));
        assert(s.skip(1).skip(k - 1) =~= s.skip(k));
        lemma_trim_start_skip(s.skip(1), k - 1);
    } else {
        assert(s.skip(0) =~= s);
    }
}

proof fn lemma_trim_end_take(s: Seq<char>, k: int)
    requires
        0 <= k <= s.len(),
        forall|j: int| k <= j < s.len() ==> is_space_char(s[j]),
    ensures
        spec_trim_end(s) == spec_trim_end(s.take(k)),
    decreases s.len() - k,
{
    if k < s.len() {
        assert(s.drop_last() =~= s.take(s.len() - 1));
        lemma_trim_end_take(s.take(s.len() - 1), k);
        assert(s.take(s.len() - 1).take(k) =~= s.take(k));
    } else {
        assert(s.take(s.len() as int) =~= s);
    }
}

fn is_space(c: char) -> (r: bool)
    ensures
        r == is_space_char(c),
{
    c == ' ' || c == '\t' || c == '\r' || c == '\n'
}

/// The string with leading and trailing whitespace removed.
pub fn trim_str(s: &str) -> (r: String)
    ensures
        r@ == spec_trim(s@),
{
    let n = s.unicode_len();
    let mut start: usize = 0;
    while start < n && is_space(s.get_char(start))
        invariant
            n == s@.len(),
            start <= n,
            forall|j: int| 0 <= j < start ==> is_space_char(s@[j]),
        decreases n - start,
    {
        start += 1;
    }
    proof {
        lemma_trim_start_skip(s@, start as int);
    }
    if start == n {
        proof {
            assert(s@.skip(start as int) =~= Seq::<char>::empty());
        }
        String::new()
    } else {
        let mut end: usize = n;
        while end > start && is_space(s.get_char(end - 1))
            invariant
                n == s@.len(),
                start <= end <= n,
                !is_space_char(s@[start as int]),
                forall|j: int| end <= j < n ==> is_space_char(s@[j]),
            decreases end,
        {
            end -= 1;
        }
        proof {
            let tail = s@.skip(start as int);
            lemma_trim_end_take(tail, end - start);
            assert(tail.take(end - start) =~= s@.subrange(start as int, end as int));
            // the kept range neither starts nor ends with whitespace
            assert(spec_trim_start(s@) == tail);
            if end > start {
                assert(!is_space_char(s@[end - 1]));
                assert(s@.subrange(start as int, end as int).last() == s@[end - 1]);
                assert(spec_trim_end(s@.subrange(start as int, end as int)) == s@.subrange(
                    start as int,
                    end as int,
                ));
            }
        }
        let r = s.substring_char(start, end);
        r.to_owned()
    }
}

} // verus!
