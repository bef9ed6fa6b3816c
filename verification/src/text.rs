//! Text primitives for the output parsers: splitting captured command
//! output into lines and whitespace-delimited fields, trimming, prefix and
//! suffix tests, and joining.  Each executable function is proved equal to a
//! direct specification over sequences of characters.

use vstd::prelude::*;

verus! {

/// The whitespace characters the parsers split and trim on.
pub open spec fn is_space_char(c: char) -> bool {
    c == ' ' || c == '\t' || c == '\n' || c == '\r' || c == '\x0c'
}

/// Tests one character against the whitespace class.
pub fn is_space(c: char) -> (r: bool)
    ensures
        r == is_space_char(c),
{
    c == ' ' || c == '\t' || c == '\n' || c == '\r' || c == '\x0c'
}

/// The sequence of views of a vector of strings.
pub open spec fn strs_view(v: Seq<String>) -> Seq<Seq<char>> {
    v.map_values(|s: String| s@)
}

/// Index of the first occurrence of `c` in `s`, or a negative value if `c`
/// does not occur.
pub open spec fn find_char(s: Seq<char>, c: char) -> int
    decreases s.len(),
{
    if s.len() == 0 {
        -1
    } else if s[0] == c {
        0
    } else {
        let r = find_char(s.drop_first(), c);
        if r < 0 {
            -1
        } else {
            r + 1
        }
    }
}

/// What `find_char` returns: a position of `c` no later than any other.
pub proof fn lemma_find_char(s: Seq<char>, c: char)
    ensures
        find_char(s, c) >= 0 ==> find_char(s, c) < s.len() && s[find_char(s, c)] == c,
        forall|j: int| 0 <= j < s.len() && s[j] == c ==> 0 <= find_char(s, c) <= j,
    decreases s.len(),
{
    if s.len() == 0 {
    } else if s[0] == c {
    } else {
        lemma_find_char(s.drop_first(), c);
        let r = find_char(s.drop_first(), c);
        if r >= 0 {
            assert(s[r + 1] == s.drop_first()[r]);
        }
        assert forall|j: int| 0 <= j < s.len() && s[j] == c implies 0 <= find_char(s, c) <= j by {
            assert(j != 0);
            assert(s.drop_first()[j - 1] == s[j]);
        }
    }
}

/// Index of the first whitespace character in `s`, or a negative value.
pub open spec fn find_space(s: Seq<char>) -> int
    decreases s.len(),
{
    if s.len() == 0 {
        -1
    } else if is_space_char(s[0]) {
        0
    } else {
        let r = find_space(s.drop_first());
        if r < 0 {
            -1
        } else {
            r + 1
        }
    }
}

/// What `find_space` returns: a whitespace position no later than any other.
pub proof fn lemma_find_space(s: Seq<char>)
    ensures
        find_space(s) >= 0 ==> find_space(s) < s.len() && is_space_char(s[find_space(s)]),
        forall|j: int| 0 <= j < s.len() && is_space_char(s[j]) ==> 0 <= find_space(s) <= j,
    decreases s.len(),
{
    if s.len() == 0 {
    } else if is_space_char(s[0]) {
    } else {
        lemma_find_space(s.drop_first());
        let r = find_space(s.drop_first());
        if r >= 0 {
            assert(is_space_char(s.drop_first()[r]));
            assert(s[r + 1] == s.drop_first()[r]);
        }
        assert forall|j: int| 0 <= j < s.len() && is_space_char(s[j]) implies 0 <= find_space(s)
            <= j by {
            assert(j != 0);
            assert(s.drop_first()[j - 1] == s[j]);
        }
    }
}

/// A line with one trailing carriage return removed, as the line iterator of
/// the standard library does.
pub open spec fn strip_cr(l: Seq<char>) -> Seq<char> {
    if l.len() > 0 && l[l.len() - 1] == '\r' {
        l.drop_last()
    } else {
        l
    }
}

/// The lines of `s`: split at each newline, a trailing carriage return
/// removed from each piece, and no empty final line for text that ends with
/// a newline.
pub open spec fn spec_lines(s: Seq<char>) -> Seq<Seq<char>>
    decreases s.len(),
{
    if s.len() == 0 {
        Seq::empty()
    } else {
        let i = find_char(s, '\n');
        if 0 <= i < s.len() {
            seq![strip_cr(s.take(i))] + spec_lines(s.skip(i + 1))
        } else {
            seq![strip_cr(s)]
        }
    }
}

/// Peeling one newline-terminated line off the front of a text.
pub proof fn lemma_lines_step(pre: Seq<char>, rest: Seq<char>)
    requires
        forall|j: int| 0 <= j < pre.len() ==> pre[j] != '\n',
        rest.len() > 0,
        rest[0] == '\n',
    ensures
        spec_lines(pre + rest) == seq![strip_cr(pre)] + spec_lines(rest.drop_first()),
{
    let s = pre + rest;
    lemma_find_char(s, '\n');
    assert(s[pre.len() as int] == '\n');
    let i = find_char(s, '\n');
    assert(0 <= i <= pre.len());
    if i < pre.len() {
        assert(s[i] == pre[i]);
        assert(false);
    }
    assert(s.take(i) =~= pre);
    assert(s.skip(i + 1) =~= rest.drop_first());
}

/// A text without newlines is its own single line, or no line at all when
/// it is empty.
pub proof fn lemma_lines_flat(pre: Seq<char>)
    requires
        forall|j: int| 0 <= j < pre.len() ==> pre[j] != '\n',
    ensures
        spec_lines(pre) == if pre.len() == 0 {
            Seq::<Seq<char>>::empty()
        } else {
            seq![strip_cr(pre)]
        },
{
    lemma_find_char(pre, '\n');
    if pre.len() > 0 {
        let i = find_char(pre, '\n');
        if 0 <= i < pre.len() {
            assert(pre[i] == '\n');
            assert(false);
        }
    }
}

/// Splits a text into its lines.
pub fn split_lines(s: &str) -> (r: Vec<String>)
    ensures
        strs_view(r@) == spec_lines(s@),
{
    let n = s.unicode_len();
    let mut r: Vec<String> = Vec::new();
    let mut start: usize = 0;
    let mut i: usize = 0;
    proof {
        assert(s@.skip(0) =~= s@);
        assert(strs_view(r@) + spec_lines(s@) =~= spec_lines(s@));
    }
    while i < n
        invariant
            n == s@.len(),
            start <= i <= n,
            forall|j: int| start <= j < i ==> s@[j] != '\n',
            spec_lines(s@) == strs_view(r@) + spec_lines(s@.skip(start as int)),
        decreases n - i,
    {
        if s.get_char(i) == '\n' {
            let line_end = if i > start && s.get_char(i - 1) == '\r' {
                i - 1
            } else {
                i
            };
            let line = s.substring_char(start, line_end).to_owned();
            proof {
                let pre = s@.subrange(start as int, i as int);
                let rest = s@.skip(i as int);
                assert(rest[0] == s@[i as int]);
                assert(pre + rest =~= s@.skip(start as int));
                lemma_lines_step(pre, rest);
                assert(rest.drop_first() =~= s@.skip(i as int + 1));
                if i > start && s@[i as int - 1] == '\r' {
                    assert(strip_cr(pre) =~= s@.subrange(start as int, i as int - 1));
                } else {
                    assert(strip_cr(pre) =~= pre);
                }
                assert(line@ == strip_cr(pre));
            }
            let ghost old_r = r@;
            r.push(line);
            proof {
                assert(strs_view(r@) =~= strs_view(old_r).push(line@));
                assert(strs_view(old_r) + spec_lines(s@.skip(start as int)) =~= strs_view(r@)
                    + spec_lines(s@.skip(i as int + 1)));
            }
            start = i + 1;
        }
        i = i + 1;
    }
    if start < n {
        let line_end = if s.get_char(n - 1) == '\r' {
            n - 1
        } else {
            n
        };
        let line = s.substring_char(start, line_end).to_owned();
        proof {
            let pre = s@.skip(start as int);
            lemma_lines_flat(pre);
            if s@[n as int - 1] == '\r' {
                assert(strip_cr(pre) =~= s@.subrange(start as int, n as int - 1));
            } else {
                assert(strip_cr(pre) =~= s@.subrange(start as int, n as int));
            }
            assert(line@ == strip_cr(pre));
        }
        let ghost old_r = r@;
        r.push(line);
        proof {
            assert(strs_view(r@) =~= strs_view(old_r).push(line@));
            assert(spec_lines(s@) =~= strs_view(r@));
        }
    } else {
        proof {
            assert(s@.skip(start as int) =~= Seq::<char>::empty());
            assert(spec_lines(s@) =~= strs_view(r@));
        }
    }
    r
}

/// The whitespace-delimited fields of a text, in order, with no empty
/// fields.
pub open spec fn spec_words(s: Seq<char>) -> Seq<Seq<char>>
    decreases s.len(),
{
    if s.len() == 0 {
        Seq::empty()
    } else if is_space_char(s[0]) {
        spec_words(s.drop_first())
    } else {
        let i = find_space(s);
        if 1 <= i < s.len() {
            seq![s.take(i)] + spec_words(s.skip(i))
        } else {
            seq![s]
        }
    }
}

/// Skipping leading whitespace does not change the fields.
pub proof fn lemma_words_skip_space(s: Seq<char>)
    requires
        s.len() > 0,
        is_space_char(s[0]),
    ensures
        spec_words(s) == spec_words(s.drop_first()),
{
}

/// Peeling the first field off a text that starts with one: the field runs
/// up to the first whitespace character, or to the end.
pub proof fn lemma_words_first(s: Seq<char>, j: int)
    requires
        s.len() > 0,
        !is_space_char(s[0]),
        0 < j <= s.len(),
        forall|k: int| 0 <= k < j ==> !is_space_char(s[k]),
        j < s.len() ==> is_space_char(s[j]),
    ensures
        spec_words(s) == seq![s.take(j)] + spec_words(s.skip(j)),
{
    lemma_find_space(s);
    let i = find_space(s);
    if j == s.len() {
        if i >= 0 {
            assert(is_space_char(s[i]));
            assert(false);
        }
        assert(s.take(j) =~= s);
        assert(s.skip(j) =~= Seq::<char>::empty());
        assert(spec_words(s) =~= seq![s.take(j)] + spec_words(s.skip(j)));
    } else {
        assert(is_space_char(s[j]));
        assert(0 <= i <= j);
        if i < j {
            assert(is_space_char(s[i]));
            assert(false);
        }
    }
}

/// Splits a text into its whitespace-delimited fields.
pub fn split_words(s: &str) -> (r: Vec<String>)
    ensures
        strs_view(r@) == spec_words(s@),
{
    let n = s.unicode_len();
    let mut r: Vec<String> = Vec::new();
    let mut i: usize = 0;
    proof {
        assert(s@.skip(0) =~= s@);
        assert(strs_view(r@) + spec_words(s@) =~= spec_words(s@));
    }
    while i < n
        invariant
            n == s@.len(),
            i <= n,
            spec_words(s@) == strs_view(r@) + spec_words(s@.skip(i as int)),
        decreases n - i,
    {
        let c = s.get_char(i);
        if is_space(c) {
            proof {
                let t = s@.skip(i as int);
                lemma_words_skip_space(t);
                assert(t.drop_first() =~= s@.skip(i as int + 1));
            }
            i = i + 1;
        } else {
            let start = i;
            let mut j = i + 1;
            loop
                invariant_except_break
                    n == s@.len(),
                    start < j <= n,
                    forall|k: int| start <= k < j ==> !is_space_char(s@[k]),
                ensures
                    start < j <= n,
                    n == s@.len(),
                    forall|k: int| start <= k < j ==> !is_space_char(s@[k]),
                    j < n ==> is_space_char(s@[j as int]),
                decreases n - j,
            {
                if j == n {
                    break ;
                }
                let d = s.get_char(j);
                if is_space(d) {
                    break ;
                }
                j = j + 1;
            }
            let word = s.substring_char(start, j).to_owned();
            proof {
                let t = s@.skip(start as int);
                lemma_words_first(t, j - start);
                assert(t.take(j - start) =~= s@.subrange(start as int, j as int));
                assert(t.skip(j - start) =~= s@.skip(j as int));
                assert(word@ == t.take(j - start));
            }
            let ghost old_r = r@;
            r.push(word);
            proof {
                assert(strs_view(r@) =~= strs_view(old_r).push(word@));
                assert(strs_view(old_r) + spec_words(s@.skip(start as int)) =~= strs_view(r@)
                    + spec_words(s@.skip(j as int)));
            }
            i = j;
        }
    }
    proof {
        assert(s@.skip(i as int) =~= Seq::<char>::empty());
        assert(spec_words(s@) =~= strs_view(r@));
    }
    r
}

/// The text with leading and trailing whitespace removed.
pub open spec fn spec_trim(s: Seq<char>) -> Seq<char>
    decreases s.len(),
{
    if s.len() == 0 {
        s
    } else if is_space_char(s[0]) {
        spec_trim(s.drop_first())
    } else if is_space_char(s[s.len() - 1]) {
        spec_trim(s.drop_last())
    } else {
        s
    }
}

/// Removes leading and trailing whitespace.
pub fn trim_str(s: &str) -> (r: String)
    ensures
        r@ == spec_trim(s@),
{
    let n = s.unicode_len();
    let mut a: usize = 0;
    proof {
        assert(s@.skip(0) =~= s@);
    }
    loop
        invariant_except_break
            n == s@.len(),
            a <= n,
            spec_trim(s@) == spec_trim(s@.skip(a as int)),
        ensures
            a <= n,
            n == s@.len(),
            spec_trim(s@) == spec_trim(s@.skip(a as int)),
            a < n ==> !is_space_char(s@[a as int]),
        decreases n - a,
    {
        if a == n {
            break ;
        }
        let c = s.get_char(a);
        if !is_space(c) {
            break ;
        }
        proof {
            let t = s@.skip(a as int);
            assert(t[0] == s@[a as int]);
            assert(t.drop_first() =~= s@.skip(a as int + 1));
        }
        a = a + 1;
    }
    if a == n {
        proof {
            assert(s@.skip(a as int) =~= Seq::<char>::empty());
        }
        return String::new();
    }
    let mut b: usize = n;
    loop
        invariant_except_break
            n == s@.len(),
            a < b <= n,
            !is_space_char(s@[a as int]),
            spec_trim(s@) == spec_trim(s@.subrange(a as int, b as int)),
        ensures
            a < b <= n,
            n == s@.len(),
            spec_trim(s@) == spec_trim(s@.subrange(a as int, b as int)),
            !is_space_char(s@[a as int]),
            !is_space_char(s@[b as int - 1]),
        decreases b,
    {
        let c = s.get_char(b - 1);
        if !is_space(c) {
            break ;
        }
        proof {
            let t = s@.subrange(a as int, b as int);
            assert(t[0] == s@[a as int]);
            assert(t[t.len() - 1] == s@[b as int - 1]);
            assert(t.drop_last() =~= s@.subrange(a as int, b as int - 1));
            assert(b - 1 > a);
        }
        b = b - 1;
    }
    proof {
        let t = s@.subrange(a as int, b as int);
        assert(t[0] == s@[a as int]);
        assert(t[t.len() - 1] == s@[b as int - 1]);
        assert(spec_trim(t) == t);
    }
    let piece = s.substring_char(a, b);
    piece.to_owned()
}

/// Whether `p` is a prefix of `s`.
pub open spec fn starts_with(s: Seq<char>, p: Seq<char>) -> bool {
    p.len() <= s.len() && forall|i: int| 0 <= i < p.len() ==> s[i] == p[i]
}

/// Tests whether `s` begins with `p`.
pub fn starts_with_str(s: &str, p: &str) -> (r: bool)
    ensures
        r == starts_with(s@, p@),
{
    let ns = s.unicode_len();
    let np = p.unicode_len();
    if np > ns {
        return false;
    }
    let mut i: usize = 0;
    while i < np
        invariant
            ns == s@.len(),
            np == p@.len(),
            np <= ns,
            i <= np,
            forall|j: int| 0 <= j < i ==> s@[j] == p@[j],
        decreases np - i,
    {
        if s.get_char(i) != p.get_char(i) {
            return false;
        }
        i = i + 1;
    }
    true
}

/// Tests whether two texts are equal.
pub fn str_eq(a: &str, b: &str) -> (r: bool)
    ensures
        r == (a@ == b@),
{
    let na = a.unicode_len();
    let nb = b.unicode_len();
    if na != nb {
        return false;
    }
    let mut i: usize = 0;
    while i < na
        invariant
            na == a@.len(),
            na == b@.len(),
            i <= na,
            forall|j: int| 0 <= j < i ==> a@[j] == b@[j],
        decreases na - i,
    {
        if a.get_char(i) != b.get_char(i) {
            return false;
        }
        i = i + 1;
    }
    proof {
        assert(a@ =~= b@);
    }
    true
}

/// The pieces joined with a single space between each adjacent pair.
pub open spec fn spec_join_space(parts: Seq<Seq<char>>) -> Seq<char>
    decreases parts.len(),
{
    if parts.len() == 0 {
        Seq::empty()
    } else if parts.len() == 1 {
        parts[0]
    } else {
        parts[0] + seq![' '] + spec_join_space(parts.drop_first())
    }
}

/// Appending one more piece extends the joined text by a space and the
/// piece.
pub proof fn lemma_join_push(parts: Seq<Seq<char>>, x: Seq<char>)
    ensures
        spec_join_space(parts.push(x)) == if parts.len() == 0 {
            x
        } else {
            spec_join_space(parts) + seq![' '] + x
        },
    decreases parts.len(),
{
    if parts.len() == 0 {
        assert(parts.push(x)[0] == x);
        assert(spec_join_space(parts.push(x)) == x);
    } else if parts.len() == 1 {
        assert(parts.push(x).drop_first() =~= seq![x]);
        assert(parts.push(x)[0] == parts[0]);
        assert(spec_join_space(seq![x]) == x);
    } else {
        lemma_join_push(parts.drop_first(), x);
        assert(parts.push(x).drop_first() =~= parts.drop_first().push(x));
        assert(parts.push(x)[0] == parts[0]);
        assert(parts[0] + seq![' '] + (spec_join_space(parts.drop_first()) + seq![' '] + x) =~= (
        parts[0] + seq![' '] + spec_join_space(parts.drop_first())) + seq![' '] + x);
    }
}

/// Joins the pieces at and after `from` with single spaces.
pub fn join_space_from(parts: &Vec<String>, from: usize) -> (r: String)
    requires
        from <= parts@.len(),
    ensures
        r@ == spec_join_space(strs_view(parts@).skip(from as int)),
{
    let n = parts.len();
    let mut r = String::new();
    if from >= n {
        proof {
            assert(strs_view(parts@).skip(from as int) =~= Seq::<Seq<char>>::empty());
        }
        return r;
    }
    r.append(parts[from].as_str());
    let mut i = from + 1;
    proof {
        assert(strs_view(parts@).subrange(from as int, from as int + 1) =~= seq![
            strs_view(parts@)[from as int],
        ]);
        assert(r@ == spec_join_space(strs_view(parts@).subrange(from as int, from as int + 1)));
    }
    while i < n
        invariant
            n == parts@.len(),
            from < i <= n,
            r@ == spec_join_space(strs_view(parts@).subrange(from as int, i as int)),
        decreases n - i,
    {
        r.append(" ");
        r.append(parts[i].as_str());
        proof {
            reveal_strlit(" ");
            let ws = strs_view(parts@);
            lemma_join_push(ws.subrange(from as int, i as int), ws[i as int]);
            assert(ws.subrange(from as int, i as int + 1) =~= ws.subrange(
                from as int,
                i as int,
            ).push(ws[i as int]));
            assert(" "@ =~= seq![' ']);
        }
        i = i + 1;
    }
    proof {
        assert(strs_view(parts@).subrange(from as int, n as int) =~= strs_view(parts@).skip(
            from as int,
        ));
    }
    r
}

} // verus!
