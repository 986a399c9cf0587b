//! Character-sequence helpers shared by the rest of the library.

use vstd::prelude::*;

verus! {

/// `String::push` appends one character at the end of the string.
pub assume_specification[ String::push ](s: &mut String, ch: char)
    ensures
        final(s)@ == old(s)@.push(ch),
;

/// Appends every character of `chars` to `out`, in order.
pub fn push_chars(out: &mut String, chars: &Vec<char>)
    ensures
        final(out)@ == old(out)@ + chars@,
{
    let n = chars.len();
    let mut i: usize = 0;
    while i < n
        invariant
            n == chars@.len(),
            i <= n,
            out@ == old(out)@ + chars@.take(i as int),
        decreases n - i,
    {
        out.push(chars[i]);
        assert(chars@.take(i + 1) =~= chars@.take(i as int).push(chars@[i as int]));
        i = i + 1;
    }
    assert(chars@.take(n as int) =~= chars@);
}

/// The characters of `s`, in order.
pub fn chars_of(s: &str) -> (v: Vec<char>)
    ensures
        v@ == s@,
{
    let mut v: Vec<char> = Vec::new();
    for c in it: s.chars()
        invariant
            v@ == it.seq().take(it.index() as int),
    {
        v.push(c);
    }
    v
}


/// The pieces of `s` between occurrences of `sep`, as `str::split` yields
/// them: there is always at least one piece, and empty pieces are kept.
pub open spec fn split_parts(s: Seq<char>, sep: char) -> Seq<Seq<char>>
    decreases s.len(),
{
    if s.len() == 0 {
        seq![Seq::empty()]
    } else {
        let head = split_parts(s.drop_last(), sep);
        if s.last() == sep {
            head.push(Seq::empty())
        } else {
            head.update(head.len() - 1, head.last().push(s.last()))
        }
    }
}

/// `split_parts` always yields at least one piece.
pub proof fn lemma_split_parts_nonempty(s: Seq<char>, sep: char)
    ensures
        split_parts(s, sep).len() >= 1,
    decreases s.len(),
{
    if s.len() > 0 {
        lemma_split_parts_nonempty(s.drop_last(), sep);
    }
}

/// A sequence without `sep` is a single piece.
pub proof fn lemma_split_parts_no_sep(s: Seq<char>, sep: char)
    requires
        forall|i: int| 0 <= i < s.len() ==> #[trigger] s[i] != sep,
    ensures
        split_parts(s, sep) == seq![s],
    decreases s.len(),
{
    if s.len() > 0 {
        let t = s.drop_last();
        assert forall|i: int| 0 <= i < t.len() implies #[trigger] t[i] != sep by {
            assert(t[i] == s[i]);
        }
        lemma_split_parts_no_sep(t, sep);
        assert(s[s.len() - 1] != sep);
        assert(t.push(s.last()) =~= s);
        assert(split_parts(s, sep) =~= seq![s]);
    } else {
        assert(s =~= Seq::<char>::empty());
        assert(split_parts(s, sep) =~= seq![s]);
    }
}

/// The pieces `parts` put back together, with `sep` between each two.
pub open spec fn joined_with(parts: Seq<Seq<char>>, sep: char) -> Seq<char>
    decreases parts.len(),
{
    if parts.len() == 0 {
        Seq::empty()
    } else if parts.len() == 1 {
        parts[0]
    } else {
        joined_with(parts.drop_last(), sep) + seq![sep] + parts.last()
    }
}

/// Splitting loses nothing and cuts only at `sep`: joining the pieces of
/// `s` with `sep` between them gives back `s`, and no piece holds `sep`.
pub proof fn lemma_split_parts_rejoin(s: Seq<char>, sep: char)
    ensures
        joined_with(split_parts(s, sep), sep) == s,
        forall|k: int, j: int|
            0 <= k < split_parts(s, sep).len() && 0 <= j < split_parts(s, sep)[k].len()
                ==> #[trigger] split_parts(s, sep)[k][j] != sep,
    decreases s.len(),
{
    let always = |c: char| true;
    lemma_split_parts_chars(s, sep, always);
    let parts = split_parts(s, sep);
    if s.len() == 0 {
        assert(joined_with(parts, sep) =~= s);
    } else {
        let t = s.drop_last();
        let c = s.last();
        lemma_split_parts_rejoin(t, sep);
        lemma_split_parts_nonempty(t, sep);
        let head = split_parts(t, sep);
        if c == sep {
            assert(parts.drop_last() =~= head);
            assert(joined_with(parts, sep) =~= s);
        } else if head.len() == 1 {
            assert(joined_with(head, sep) == head[0]);
            assert(joined_with(parts, sep) =~= s);
        } else {
            assert(parts == head.update(head.len() - 1, head.last().push(c)));
            assert(parts.drop_last() =~= head.drop_last());
            assert(parts.last() == head.last().push(c));
            let front = joined_with(head.drop_last(), sep);
            assert(joined_with(head, sep) == front + seq![sep] + head.last());
            assert(joined_with(parts, sep) == front + seq![sep] + head.last().push(c));
            assert(joined_with(parts, sep) =~= t.push(c));
            assert(t.push(c) =~= s);
        }
    }
}

/// Every character of every piece of `s` satisfies `p` and differs from
/// `sep`, when every character of `s` satisfies `p`.
pub proof fn lemma_split_parts_chars(s: Seq<char>, sep: char, p: spec_fn(char) -> bool)
    requires
        forall|i: int| 0 <= i < s.len() ==> p(#[trigger] s[i]),
    ensures
        forall|k: int, j: int|
            0 <= k < split_parts(s, sep).len() && 0 <= j < split_parts(s, sep)[k].len() ==> {
                &&& #[trigger] split_parts(s, sep)[k][j] != sep
                &&& p(split_parts(s, sep)[k][j])
            },
    decreases s.len(),
{
    if s.len() > 0 {
        let t = s.drop_last();
        assert forall|i: int| 0 <= i < t.len() implies p(#[trigger] t[i]) by {
            assert(t[i] == s[i]);
        }
        lemma_split_parts_chars(t, sep, p);
        lemma_split_parts_nonempty(t, sep);
        assert(p(s[s.len() - 1]));
    }
}

/// The pieces of `parts` that are not empty, in order.
pub open spec fn nonempty_parts(parts: Seq<Seq<char>>) -> Seq<Seq<char>>
    decreases parts.len(),
{
    if parts.len() == 0 {
        Seq::empty()
    } else if parts.last().len() > 0 {
        nonempty_parts(parts.drop_last()).push(parts.last())
    } else {
        nonempty_parts(parts.drop_last())
    }
}

/// Every piece kept by `nonempty_parts` satisfies `q`, when every piece of
/// `parts` does.
pub proof fn lemma_nonempty_parts_keep(parts: Seq<Seq<char>>, q: spec_fn(Seq<char>) -> bool)
    requires
        forall|i: int| 0 <= i < parts.len() ==> q(#[trigger] parts[i]),
    ensures
        forall|k: int| 0 <= k < nonempty_parts(parts).len() ==> q(#[trigger] nonempty_parts(parts)[k]),
    decreases parts.len(),
{
    if parts.len() > 0 {
        let t = parts.drop_last();
        assert forall|i: int| 0 <= i < t.len() implies q(#[trigger] t[i]) by {
            assert(t[i] == parts[i]);
        }
        lemma_nonempty_parts_keep(t, q);
        let r = nonempty_parts(parts);
        let h = nonempty_parts(t);
        assert forall|k: int| 0 <= k < r.len() implies q(#[trigger] r[k]) by {
            if parts.last().len() > 0 {
                assert(r == h.push(parts.last()));
                if k < h.len() {
                    assert(r[k] == h[k]);
                } else {
                    assert(q(parts[parts.len() - 1]));
                }
            } else {
                assert(r[k] == h[k]);
            }
        }
    }
}

/// Splitting `a`, `sep`, `b` gives the pieces of `a` followed by those of
/// `b`.
pub proof fn lemma_split_parts_concat(a: Seq<char>, b: Seq<char>, sep: char)
    ensures
        split_parts(a + seq![sep] + b, sep) == split_parts(a, sep) + split_parts(b, sep),
    decreases b.len(),
{
    let s = a + seq![sep] + b;
    if b.len() == 0 {
        assert(s.drop_last() =~= a);
        assert(split_parts(s, sep) =~= split_parts(a, sep) + split_parts(b, sep));
    } else {
        let bt = b.drop_last();
        lemma_split_parts_concat(a, bt, sep);
        assert(s.drop_last() =~= a + seq![sep] + bt);
        lemma_split_parts_nonempty(bt, sep);
        let pa = split_parts(a, sep);
        let pb = split_parts(bt, sep);
        if b.last() == sep {
            assert(split_parts(s, sep) =~= pa + pb.push(Seq::empty()));
        } else {
            let head = pa + pb;
            assert(head.last() == pb.last());
            assert(split_parts(s, sep) =~= pa + pb.update(pb.len() - 1, pb.last().push(b.last())));
        }
    }
}

/// `nonempty_parts` of two lists of pieces placed one after the other.
pub proof fn lemma_nonempty_parts_concat(p: Seq<Seq<char>>, q: Seq<Seq<char>>)
    ensures
        nonempty_parts(p + q) == nonempty_parts(p) + nonempty_parts(q),
    decreases q.len(),
{
    if q.len() == 0 {
        assert(p + q =~= p);
        assert(nonempty_parts(p) + nonempty_parts(q) =~= nonempty_parts(p));
    } else {
        lemma_nonempty_parts_concat(p, q.drop_last());
        assert((p + q).drop_last() =~= p + q.drop_last());
        assert((p + q).last() == q.last());
        if q.last().len() > 0 {
            assert(nonempty_parts(p + q) =~= nonempty_parts(p) + nonempty_parts(q));
        }
    }
}

/// A sequence holding a character other than `sep` has a non-empty piece.
pub proof fn lemma_split_parts_has_word(s: Seq<char>, sep: char, i: int)
    requires
        0 <= i < s.len(),
        s[i] != sep,
    ensures
        nonempty_parts(split_parts(s, sep)).len() > 0,
    decreases s.len(),
{
    let t = s.drop_last();
    lemma_split_parts_nonempty(t, sep);
    if s.last() == sep {
        assert(t[i] == s[i]);
        lemma_split_parts_has_word(t, sep, i);
        assert(split_parts(s, sep).drop_last() =~= split_parts(t, sep));
    } else {
        let p = split_parts(s, sep);
        assert(p.last().len() > 0);
    }
}

/// Splits `s` at every occurrence of `sep`, as `str::split` does.
pub fn split_chars(s: &Vec<char>, sep: char) -> (parts: Vec<Vec<char>>)
    ensures
        parts@.len() == split_parts(s@, sep).len(),
        forall|k: int| 0 <= k < parts@.len() ==> #[trigger] parts@[k]@ == split_parts(s@, sep)[k],
{
    let n = s.len();
    let mut parts: Vec<Vec<char>> = Vec::new();
    let mut cur: Vec<char> = Vec::new();
    let mut i: usize = 0;
    proof {
        assert(s@.take(0) =~= Seq::<char>::empty());
    }
    while i < n
        invariant
            n == s@.len(),
            i <= n,
            parts@.len() + 1 == split_parts(s@.take(i as int), sep).len(),
            forall|k: int|
                0 <= k < parts@.len() ==> #[trigger] parts@[k]@ == split_parts(
                    s@.take(i as int),
                    sep,
                )[k],
            cur@ == split_parts(s@.take(i as int), sep).last(),
        decreases n - i,
    {
        let c = s[i];
        let ghost prev = s@.take(i as int);
        proof {
            assert(s@.take(i + 1).drop_last() =~= prev);
            assert(s@.take(i + 1).last() == c);
            lemma_split_parts_nonempty(prev, sep);
        }
        if c == sep {
            let mut done: Vec<char> = Vec::new();
            std::mem::swap(&mut cur, &mut done);
            parts.push(done);
        } else {
            cur.push(c);
        }
        i = i + 1;
    }
    parts.push(cur);
    proof {
        assert(s@.take(n as int) =~= s@);
    }
    parts
}

/// The character of the decimal digit `d` (for `d < 10`).
pub open spec fn digit_char(d: nat) -> char {
    (('0' as nat) + d) as char
}

/// The decimal representation of `n`, most significant digit first, with no
/// leading zero (as `format!("{n}")` writes it).
pub open spec fn decimal(n: nat) -> Seq<char>
    decreases n,
{
    if n < 10 {
        seq![digit_char(n)]
    } else {
        decimal(n / 10).push(digit_char(n % 10))
    }
}

/// Appends the decimal representation of `n` to `out`.
pub fn push_decimal(out: &mut String, n: usize)
    ensures
        final(out)@ == old(out)@ + decimal(n as nat),
    decreases n,
{
    if n >= 10 {
        push_decimal(out, n / 10);
    }
    let d: u8 = (n % 10) as u8;
    let c: char = (48u8 + d) as char;
    assert(c == digit_char((n % 10) as nat));
    out.push(c);
    proof {
        if n >= 10 {
            assert(decimal(n as nat) == decimal((n / 10) as nat).push(digit_char((n % 10) as nat)));
        }
    }
}

/// The number that the decimal digits `s` stand for.
pub open spec fn decimal_value(s: Seq<char>) -> nat
    decreases s.len(),
{
    if s.len() == 0 {
        0
    } else {
        decimal_value(s.drop_last()) * 10 + ((s.last() as nat) - ('0' as nat)) as nat
    }
}

/// Reading back the decimal representation of `n` gives `n`.
pub proof fn lemma_decimal_value(n: nat)
    ensures
        decimal_value(decimal(n)) == n,
    decreases n,
{
    let s = decimal(n);
    assert((digit_char(n % 10) as nat) == ('0' as nat) + n % 10);
    if n < 10 {
        assert(s.drop_last() =~= Seq::<char>::empty());
    } else {
        lemma_decimal_value(n / 10);
        assert(s.drop_last() =~= decimal(n / 10));
    }
    assert(decimal_value(s) == decimal_value(s.drop_last()) * 10 + ((s.last() as nat) - ('0' as nat)) as nat);
}

/// Distinct numbers have distinct decimal representations.
pub proof fn lemma_decimal_injective(a: nat, b: nat)
    ensures
        decimal(a) == decimal(b) ==> a == b,
{
    lemma_decimal_value(a);
    lemma_decimal_value(b);
}

} // verus!
