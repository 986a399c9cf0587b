//! Display names built from Rust identifiers.

use vstd::prelude::*;

use crate::text::{
    chars_of, lemma_nonempty_parts_concat, lemma_nonempty_parts_keep, lemma_split_parts_chars,
    lemma_split_parts_concat, lemma_split_parts_has_word, lemma_split_parts_no_sep,
    nonempty_parts, push_chars, split_chars, split_parts,
};

verus! {

/// What `char::to_uppercase` yields for `c`: the Unicode uppercase mapping,
/// one or more characters.
pub uninterp spec fn uppercase_of(c: char) -> Seq<char>;

/// The uppercase mapping of `c`: for an ASCII character its ASCII
/// uppercase, otherwise what `char::to_uppercase` yields.
pub open spec fn upper_of(c: char) -> Seq<char> {
    if (c as u32) < 0x80 {
        seq![ascii_uppercase(c)]
    } else {
        uppercase_of(c)
    }
}

/// The ASCII uppercase counterpart of `c`: `'a'..='z'` become
/// `'A'..='Z'`, every other character stays as it is.
pub open spec fn ascii_uppercase(c: char) -> char {
    if 'a' <= c && c <= 'z' {
        ((c as int) - 32) as char
    } else {
        c
    }
}

/// Calls `char::to_uppercase` and collects the characters it yields.
/// Claimed: the result is `uppercase_of(c)`, it holds at least one
/// character (std: "one or more chars"), and for an ASCII character it is the
/// single character `ascii_uppercase(c)`. Nothing is claimed of the mapping of
/// other characters beyond its name.
#[verifier::external_body]
fn to_uppercase_chars(c: char) -> (r: Vec<char>)
    ensures
        r@ == uppercase_of(c),
        r@.len() >= 1,
        (c as u32) < 0x80 ==> r@ == seq![ascii_uppercase(c)],
{
    c.to_uppercase().collect()
}

/// `c` is one of `'0'..='9'`.
pub open spec fn is_ascii_digit(c: char) -> bool {
    '0' <= c && c <= '9'
}

/// The number of characters of `w` before its trailing run of ASCII digits.
pub open spec fn digit_split(w: Seq<char>) -> nat
    decreases w.len(),
{
    if w.len() == 0 {
        0
    } else if is_ascii_digit(w.last()) {
        digit_split(w.drop_last())
    } else {
        w.len()
    }
}

/// `letters` with its first character replaced by that character's
/// uppercase mapping.
pub open spec fn capitalized(letters: Seq<char>) -> Seq<char> {
    if letters.len() == 0 {
        Seq::empty()
    } else {
        upper_of(letters[0]) + letters.drop_first()
    }
}

/// One word made readable: the part before the trailing digits is
/// capitalized, and the trailing digits, if any, follow it separated by one
/// space (the space already there when that part ends with one, so that
/// `Field 3` stays `Field 3`).
pub open spec fn pretty_word(w: Seq<char>) -> Seq<char> {
    let k = digit_split(w) as int;
    let letters = w.take(k);
    let digits = w.skip(k);
    if digits.len() == 0 {
        capitalized(letters)
    } else if letters.len() > 0 && letters.last() == ' ' {
        capitalized(letters) + digits
    } else {
        capitalized(letters) + seq![' '] + digits
    }
}

/// The readable forms of `words`, joined by single spaces.
pub open spec fn joined_pretty(words: Seq<Seq<char>>) -> Seq<char>
    decreases words.len(),
{
    if words.len() == 0 {
        Seq::empty()
    } else if words.len() == 1 {
        pretty_word(words[0])
    } else {
        joined_pretty(words.drop_last()) + seq![' '] + pretty_word(words.last())
    }
}

/// The words of an identifier: its pieces between underscores, empty pieces
/// dropped.
pub open spec fn identifier_words(s: Seq<char>) -> Seq<Seq<char>> {
    nonempty_parts(split_parts(s, '_'))
}

/// The readable name of the identifier `s`.
pub open spec fn prettified(s: Seq<char>) -> Seq<char> {
    joined_pretty(identifier_words(s))
}

/// The cut before the trailing digits of `w` falls on a byte boundary: the
/// last character before the digits, if any, is a one-byte character.
pub open spec fn splittable_word(w: Seq<char>) -> bool {
    let k = digit_split(w) as int;
    k == 0 || (w[k - 1] as u32) < 0x80
}

/// Every piece of `s` between underscores can be cut before its trailing
/// digits.
pub open spec fn prettify_defined(s: Seq<char>) -> bool {
    forall|k: int|
        0 <= k < split_parts(s, '_').len() ==> splittable_word(#[trigger] split_parts(s, '_')[k])
}

/// Appends `w[from..to]` to `out`.
fn push_range(out: &mut String, w: &Vec<char>, from: usize, to: usize)
    requires
        from <= to <= w@.len(),
    ensures
        final(out)@ == old(out)@ + w@.subrange(from as int, to as int),
{
    let mut i = from;
    while i < to
        invariant
            from <= i <= to <= w@.len(),
            out@ == old(out)@ + w@.subrange(from as int, i as int),
        decreases to - i,
    {
        out.push(w[i]);
        assert(w@.subrange(from as int, i + 1) =~= w@.subrange(from as int, i as int).push(
            w@[i as int],
        ));
        i = i + 1;
    }
}

/// The position where the trailing run of ASCII digits of `w` starts:
/// every character from there on is one of `'0'..='9'`, and the character
/// just before, if any, is not.
fn digits_start(w: &Vec<char>) -> (k: usize)
    ensures
        k == digit_split(w@),
        k <= w@.len(),
        forall|i: int| k <= i < w@.len() ==> '0' <= #[trigger] w@[i] && w@[i] <= '9',
        k > 0 ==> !('0' <= w@[k - 1] && w@[k - 1] <= '9'),
{
    let n = w.len();
    let mut k = n;
    proof {
        assert(w@.take(n as int) =~= w@);
    }
    while k > 0 && '0' <= w[k - 1] && w[k - 1] <= '9'
        invariant
            n == w@.len(),
            k <= n,
            digit_split(w@.take(k as int)) == digit_split(w@),
            forall|i: int| k <= i < n ==> '0' <= #[trigger] w@[i] && w@[i] <= '9',
        decreases k,
    {
        assert(w@.take(k as int).drop_last() =~= w@.take(k - 1));
        k = k - 1;
    }
    proof {
        if k > 0 {
            assert(w@.take(k as int).last() == w@[k - 1]);
        }
    }
    k
}

/// Appends the readable form of the word `w` to `out`.
fn push_pretty_word(out: &mut String, w: &Vec<char>)
    ensures
        final(out)@ == old(out)@ + pretty_word(w@),
{
    let n = w.len();
    let k = digits_start(w);
    let ghost start = out@;
    if k > 0 {
        let up = to_uppercase_chars(w[0]);
        assert(up@ == upper_of(w@[0]));
        push_chars(out, &up);
        push_range(out, w, 1, k);
        assert(w@.take(k as int).drop_first() =~= w@.subrange(1, k as int));
    }
    assert(out@ == start + capitalized(w@.take(k as int)));
    if k < n {
        if !(k > 0 && w[k - 1] == ' ') {
            out.push(' ');
        }
        push_range(out, w, k, n);
        assert(w@.skip(k as int) =~= w@.subrange(k as int, n as int));
    }
    assert(out@ =~= start + pretty_word(w@));
}

/// Whether `prettify_name` accepts `s`: every piece of `s` between
/// underscores can be cut before its trailing digits on a byte boundary.
pub fn name_is_prettifiable(s: &str) -> (ok: bool)
    ensures
        ok == prettify_defined(s@),
{
    let chars = chars_of(s);
    let parts = split_chars(&chars, '_');
    let ghost ps = split_parts(s@, '_');
    let n = parts.len();
    for j in 0..n
        invariant
            n == parts@.len() == ps.len(),
            ps == split_parts(s@, '_'),
            forall|k: int| 0 <= k < parts@.len() ==> #[trigger] parts@[k]@ == ps[k],
            forall|k: int| 0 <= k < j ==> splittable_word(#[trigger] ps[k]),
    {
        let w = &parts[j];
        let k = digits_start(w);
        if k > 0 && (w[k - 1] as u32) >= 0x80 {
            return false;
        }
    }
    true
}

/// Turns a snake_case identifier into a readable label: the pieces between
/// underscores (empty pieces dropped) are capitalized, a trailing number is
/// set apart by a space, and the pieces are joined by spaces.
/// For example `my_field2` reads `My Field 2`.
pub fn prettify_name(s: &str) -> (r: String)
    requires
        prettify_defined(s@),
    ensures
        r@ == prettified(s@),
{
    let chars = chars_of(s);
    let parts = split_chars(&chars, '_');
    let ghost ps = split_parts(s@, '_');
    let mut out = String::new();
    let mut first = true;
    let n = parts.len();
    for j in 0..n
        invariant
            n == parts@.len() == ps.len(),
            ps == split_parts(s@, '_'),
            forall|k: int| 0 <= k < parts@.len() ==> #[trigger] parts@[k]@ == ps[k],
            out@ == joined_pretty(nonempty_parts(ps.take(j as int))),
            first == (nonempty_parts(ps.take(j as int)).len() == 0),
    {
        let ghost done = nonempty_parts(ps.take(j as int));
        proof {
            assert(ps.take(j + 1).drop_last() =~= ps.take(j as int));
            assert(ps.take(j + 1).last() == ps[j as int]);
        }
        if parts[j].len() > 0 {
            let ghost w = ps[j as int];
            assert(done.push(w).drop_last() =~= done);
            if !first {
                out.push(' ');
            }
            push_pretty_word(&mut out, &parts[j]);
            first = false;
        }
    }
    proof {
        assert(ps.take(n as int) =~= ps);
    }
    out
}


/// Every character of `s` is ASCII.
pub open spec fn is_ascii_chars(s: Seq<char>) -> bool {
    forall|i: int| 0 <= i < s.len() ==> ((#[trigger] s[i]) as u32) < 0x80
}

/// Every character of `s` is ASCII and none is an underscore.
pub open spec fn ascii_without_underscore(s: Seq<char>) -> bool {
    forall|i: int| 0 <= i < s.len() ==> (#[trigger] s[i] != '_' && (s[i] as u32) < 0x80)
}

/// The cut before the trailing digits lies within the word.
pub proof fn lemma_digit_split_bound(w: Seq<char>)
    ensures
        digit_split(w) <= w.len(),
    decreases w.len(),
{
    if w.len() > 0 {
        lemma_digit_split_bound(w.drop_last());
    }
}

/// The readable form of an ASCII word without underscores is ASCII and has
/// no underscore either.
proof fn lemma_pretty_word_plain(w: Seq<char>)
    requires
        ascii_without_underscore(w),
    ensures
        ascii_without_underscore(pretty_word(w)),
{
    lemma_digit_split_bound(w);
    let k = digit_split(w) as int;
    let letters = w.take(k);
    let digits = w.skip(k);
    let cap = capitalized(letters);
    if letters.len() > 0 {
        let c = letters[0];
        assert(c == w[0]);
        assert(cap == seq![ascii_uppercase(c)] + letters.drop_first());
        assert forall|i: int| 0 <= i < cap.len() implies (#[trigger] cap[i] != '_' && (cap[i]
            as u32) < 0x80) by {
            if i > 0 {
                assert(cap[i] == w[i]);
            }
        }
    }
    assert forall|i: int| 0 <= i < digits.len() implies (#[trigger] digits[i] != '_' && (
    digits[i] as u32) < 0x80) by {
        assert(digits[i] == w[k + i]);
    }
    let p = pretty_word(w);
    assert forall|i: int| 0 <= i < p.len() implies (#[trigger] p[i] != '_' && (p[i] as u32)
        < 0x80) by {
        if digits.len() > 0 && letters.len() > 0 && letters.last() == ' ' {
            if i < cap.len() {
                assert(p[i] == cap[i]);
            } else {
                assert(p[i] == digits[i - cap.len()]);
            }
        } else if digits.len() > 0 {
            if i < cap.len() {
                assert(p[i] == cap[i]);
            } else if i > cap.len() {
                assert(p[i] == digits[i - cap.len() - 1]);
            }
        } else {
            assert(p[i] == cap[i]);
        }
    }
}

/// Joining ASCII words without underscores by spaces keeps the result
/// ASCII and free of underscores.
proof fn lemma_joined_pretty_plain(ws: Seq<Seq<char>>)
    requires
        forall|k: int| 0 <= k < ws.len() ==> ascii_without_underscore(#[trigger] ws[k]),
    ensures
        ascii_without_underscore(joined_pretty(ws)),
    decreases ws.len(),
{
    if ws.len() == 1 {
        lemma_pretty_word_plain(ws[0]);
    } else if ws.len() > 1 {
        let head = ws.drop_last();
        assert forall|k: int| 0 <= k < head.len() implies ascii_without_underscore(
            #[trigger] head[k],
        ) by {
            assert(head[k] == ws[k]);
        }
        lemma_joined_pretty_plain(head);
        lemma_pretty_word_plain(ws[ws.len() - 1]);
        let a = joined_pretty(head);
        let b = pretty_word(ws.last());
        let j = joined_pretty(ws);
        assert(j == a + seq![' '] + b);
        assert forall|i: int| 0 <= i < j.len() implies (#[trigger] j[i] != '_' && (j[i] as u32)
            < 0x80) by {
            if i < a.len() {
                assert(j[i] == a[i]);
            } else if i > a.len() {
                assert(j[i] == b[i - a.len() - 1]);
            }
        }
    }
}

/// Every ASCII identifier has a readable name: `prettify_name` accepts it.
pub proof fn lemma_ascii_names_accepted(s: Seq<char>)
    requires
        is_ascii_chars(s),
    ensures
        prettify_defined(s),
{
    let p = |c: char| (c as u32) < 0x80;
    assert forall|i: int| 0 <= i < s.len() implies p(#[trigger] s[i]) by {}
    lemma_split_parts_chars(s, '_', p);
    let parts = split_parts(s, '_');
    assert forall|k: int| 0 <= k < parts.len() implies splittable_word(#[trigger] parts[k]) by {
        lemma_digit_split_bound(parts[k]);
        let d = digit_split(parts[k]) as int;
        if d > 0 {
            assert(p(parts[k][d - 1]));
        }
    }
}

/// The readable name of an ASCII identifier is ASCII and holds no
/// underscore: every underscore has become a word break.
pub proof fn lemma_ascii_names_lose_underscores(s: Seq<char>)
    requires
        is_ascii_chars(s),
    ensures
        ascii_without_underscore(prettified(s)),
{
    let p = |c: char| (c as u32) < 0x80;
    assert forall|i: int| 0 <= i < s.len() implies p(#[trigger] s[i]) by {}
    lemma_split_parts_chars(s, '_', p);
    let parts = split_parts(s, '_');
    let q = |w: Seq<char>| ascii_without_underscore(w);
    assert forall|i: int| 0 <= i < parts.len() implies q(#[trigger] parts[i]) by {
        assert forall|j: int| 0 <= j < parts[i].len() implies (#[trigger] parts[i][j] != '_' && (
        parts[i][j] as u32) < 0x80) by {
            assert(p(parts[i][j]));
        }
    }
    lemma_nonempty_parts_keep(parts, q);
    let ws = identifier_words(s);
    assert forall|k: int| 0 <= k < ws.len() implies ascii_without_underscore(#[trigger] ws[k]) by {
        assert(q(ws[k]));
    }
    lemma_joined_pretty_plain(ws);
}


/// Joining two non-empty lists of words is joining their readable forms
/// with a space.
proof fn lemma_joined_pretty_concat(p: Seq<Seq<char>>, q: Seq<Seq<char>>)
    requires
        p.len() > 0,
        q.len() > 0,
    ensures
        joined_pretty(p + q) == joined_pretty(p) + seq![' '] + joined_pretty(q),
    decreases q.len(),
{
    let pq = p + q;
    if q.len() == 1 {
        assert(pq.drop_last() =~= p);
        assert(pq.last() == q[0]);
    } else {
        lemma_joined_pretty_concat(p, q.drop_last());
        assert(pq.drop_last() =~= p + q.drop_last());
        assert(pq.last() == q.last());
        assert(joined_pretty(pq) =~= joined_pretty(p) + seq![' '] + joined_pretty(q));
    }
}

/// Joining two identifiers with an underscore joins their readable names
/// with a space, when each identifier holds a character other than `_`.
pub proof fn lemma_prettified_underscore_join(a: Seq<char>, b: Seq<char>)
    requires
        exists|i: int| 0 <= i < a.len() && a[i] != '_',
        exists|j: int| 0 <= j < b.len() && b[j] != '_',
    ensures
        prettified(a + seq!['_'] + b) == prettified(a) + seq![' '] + prettified(b),
{
    let i = choose|i: int| 0 <= i < a.len() && a[i] != '_';
    let j = choose|j: int| 0 <= j < b.len() && b[j] != '_';
    lemma_split_parts_concat(a, b, '_');
    lemma_nonempty_parts_concat(split_parts(a, '_'), split_parts(b, '_'));
    lemma_split_parts_has_word(a, '_', i);
    lemma_split_parts_has_word(b, '_', j);
    lemma_joined_pretty_concat(identifier_words(a), identifier_words(b));
}


/// Characters from `'0'..='9'` appended to a word do not move the cut
/// before its trailing digits further left than the digits themselves.
proof fn lemma_digit_split_after_digits(x: Seq<char>, d: Seq<char>)
    requires
        forall|i: int| 0 <= i < d.len() ==> '0' <= #[trigger] d[i] && d[i] <= '9',
    ensures
        digit_split(x + d) == digit_split(x),
    decreases d.len(),
{
    if d.len() == 0 {
        assert(x + d =~= x);
    } else {
        let t = d.drop_last();
        assert forall|i: int| 0 <= i < t.len() implies '0' <= #[trigger] t[i] && t[i] <= '9' by {
            assert(t[i] == d[i]);
        }
        lemma_digit_split_after_digits(x, t);
        assert((x + d).drop_last() =~= x + t);
        assert((x + d).last() == d[d.len() - 1]);
    }
}

/// A single word: its readable name is the word with its first character
/// uppercased, when it holds no underscore and ends in neither a digit nor
/// a space.
pub proof fn lemma_plain_word_capitalized(p: Seq<char>)
    requires
        p.len() > 0,
        forall|i: int| 0 <= i < p.len() ==> #[trigger] p[i] != '_',
        !('0' <= p.last() && p.last() <= '9'),
    ensures
        prettified(p) == upper_of(p[0]) + p.drop_first(),
        'a' <= p[0] && p[0] <= 'z' ==> prettified(p) == seq![((p[0] as int) - 32) as char]
            + p.drop_first(),
{
    lemma_split_parts_no_sep(p, '_');
    let ps = split_parts(p, '_');
    assert(ps.drop_last() =~= Seq::<Seq<char>>::empty());
    assert(ps.last() == p);
    assert(nonempty_parts(ps.drop_last()) =~= Seq::<Seq<char>>::empty());
    assert(nonempty_parts(ps) =~= seq![p]);
    assert(identifier_words(p) =~= seq![p]);
    assert(p.take(p.len() as int) =~= p);
    assert(p.skip(p.len() as int) =~= Seq::<char>::empty());
}

/// Every trailing character from `'0'..='9'` of a word, `'0'` included, is
/// set apart: a word made of a non-empty part `p` (no underscore, not ending
/// in a digit or a space) followed by the digits `d` reads as `p` with its
/// first character uppercased, one space, then all of `d`. So `layer10`
/// reads `Layer 10`.
pub proof fn lemma_trailing_digits_set_apart(p: Seq<char>, d: Seq<char>)
    requires
        p.len() > 0,
        forall|i: int| 0 <= i < p.len() ==> #[trigger] p[i] != '_',
        !('0' <= p.last() && p.last() <= '9'),
        p.last() != ' ',
        d.len() > 0,
        forall|i: int| 0 <= i < d.len() ==> '0' <= #[trigger] d[i] && d[i] <= '9',
    ensures
        prettified(p + d) == upper_of(p[0]) + p.drop_first() + seq![' '] + d,
        'a' <= p[0] && p[0] <= 'z' ==> prettified(p + d) == seq![((p[0] as int) - 32) as char]
            + p.drop_first() + seq![' '] + d,
{
    let w = p + d;
    assert forall|i: int| 0 <= i < w.len() implies #[trigger] w[i] != '_' by {
        if i < p.len() {
            assert(w[i] == p[i]);
        } else {
            assert(w[i] == d[i - p.len()]);
        }
    }
    lemma_split_parts_no_sep(w, '_');
    let ps = split_parts(w, '_');
    assert(ps.drop_last() =~= Seq::<Seq<char>>::empty());
    assert(ps.last() == w);
    assert(nonempty_parts(ps.drop_last()) =~= Seq::<Seq<char>>::empty());
    assert(nonempty_parts(ps) =~= seq![w]);
    assert(identifier_words(w) =~= seq![w]);
    lemma_digit_split_after_digits(p, d);
    assert(digit_split(p) == p.len());
    assert(w.take(p.len() as int) =~= p);
    assert(w.skip(p.len() as int) =~= d);
    assert(prettified(w) =~= upper_of(p[0]) + p.drop_first() + seq![' '] + d);
}


/// A word whose last character before its trailing digits takes more than
/// one byte cannot be cut there: `prettify_name` does not accept it (and
/// `name_is_prettifiable` says so).
pub proof fn lemma_multibyte_before_digits_refused(p: Seq<char>, d: Seq<char>)
    requires
        p.len() > 0,
        forall|i: int| 0 <= i < p.len() ==> #[trigger] p[i] != '_',
        (p.last() as u32) >= 0x80,
        forall|i: int| 0 <= i < d.len() ==> '0' <= #[trigger] d[i] && d[i] <= '9',
    ensures
        !prettify_defined(p + d),
{
    let w = p + d;
    assert forall|i: int| 0 <= i < w.len() implies #[trigger] w[i] != '_' by {
        if i < p.len() {
            assert(w[i] == p[i]);
        } else {
            assert(w[i] == d[i - p.len()]);
        }
    }
    lemma_split_parts_no_sep(w, '_');
    lemma_digit_split_after_digits(p, d);
    assert(digit_split(p) == p.len());
    assert(w[p.len() - 1] == p.last());
    assert(!splittable_word(split_parts(w, '_')[0]));
}

} // verus!
