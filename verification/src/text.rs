//! Character-level helpers on strings: splitting, whitespace tokens, slicing.

use vstd::prelude::*;

verus! {

broadcast use vstd::string::group_string_axioms;

/// The characters of `s`, in order.
pub fn chars_of(s: &str) -> (v: Vec<char>)
    ensures
        v@ == s@,
{
    let mut v: Vec<char> = Vec::new();
    for c in it: s.chars()
        invariant
            v@ == it.seq().take(it.index()),
            it.seq() == s@,
    {
        v.push(c);
    }
    v
}

} // verus!

verus! {

/// State of a left-to-right split of the first `n` characters of `s` on `sep`:
/// the segments already closed, and the segment still open.
pub open spec fn split_state(s: Seq<char>, sep: char, n: nat) -> (Seq<Seq<char>>, Seq<char>)
    decreases n,
{
    if n == 0 || n > s.len() {
        (seq![], seq![])
    } else {
        let prev = split_state(s, sep, (n - 1) as nat);
        if s[n - 1] == sep {
            (prev.0.push(prev.1), seq![])
        } else {
            (prev.0, prev.1.push(s[n - 1]))
        }
    }
}

/// The segments of `s` between occurrences of `sep`, as `str::split` yields them:
/// `k` separators give `k + 1` segments, some of which may be empty.
pub open spec fn split_on(s: Seq<char>, sep: char) -> Seq<Seq<char>> {
    let st = split_state(s, sep, s.len());
    st.0.push(st.1)
}

/// The character runs that `bounds` select from `s`.
pub open spec fn runs_of(s: Seq<char>, bounds: Seq<(usize, usize)>) -> Seq<Seq<char>> {
    bounds.map_values(|b: (usize, usize)| s.subrange(b.0 as int, b.1 as int))
}

pub open spec fn bounds_within(len: nat, bounds: Seq<(usize, usize)>) -> bool {
    forall|i: int| 0 <= i < bounds.len() ==> #[trigger] bounds[i].0 <= bounds[i].1 <= len
}

/// Start and end positions of each segment of `chars` split on `sep`.
pub fn split_bounds(chars: &Vec<char>, sep: char) -> (b: Vec<(usize, usize)>)
    ensures
        bounds_within(chars@.len(), b@),
        runs_of(chars@, b@) == split_on(chars@, sep),
{
    let mut b: Vec<(usize, usize)> = Vec::new();
    let mut start: usize = 0;
    let n = chars.len();
    let mut i: usize = 0;
    while i < n
        invariant
            n == chars@.len(),
            0 <= start <= i <= n,
            bounds_within(chars@.len(), b@),
            split_state(chars@, sep, i as nat).0 == runs_of(chars@, b@),
            split_state(chars@, sep, i as nat).1 == chars@.subrange(start as int, i as int),
        decreases n - i,
    {
        let ghost prev_b = b@;
        if chars[i] == sep {
            b.push((start, i));
            start = i + 1;
            assert(runs_of(chars@, b@) =~= runs_of(chars@, prev_b).push(
                chars@.subrange(b@.last().0 as int, i as int),
            ));
        } else {
            assert(chars@.subrange(start as int, i + 1) =~= chars@.subrange(start as int, i as int).push(chars@[i as int]));
        }
        i = i + 1;
    }
    let ghost prev_b = b@;
    b.push((start, n));
    assert(runs_of(chars@, b@) =~= runs_of(chars@, prev_b).push(
        chars@.subrange(start as int, n as int),
    ));
    b
}

/// Whether two character runs are equal.
pub fn runs_equal(a: &Vec<char>, ab: (usize, usize), b: &Vec<char>, bb: (usize, usize)) -> (r: bool)
    requires
        ab.0 <= ab.1 <= a@.len(),
        bb.0 <= bb.1 <= b@.len(),
    ensures
        r == (a@.subrange(ab.0 as int, ab.1 as int) == b@.subrange(bb.0 as int, bb.1 as int)),
{
    if ab.1 - ab.0 != bb.1 - bb.0 {
        assert(a@.subrange(ab.0 as int, ab.1 as int).len() != b@.subrange(bb.0 as int, bb.1 as int).len());
        return false;
    }
    let len = ab.1 - ab.0;
    let mut k: usize = 0;
    while k < len
        invariant
            len == ab.1 - ab.0,
            len == bb.1 - bb.0,
            ab.0 <= ab.1 <= a@.len(),
            bb.0 <= bb.1 <= b@.len(),
            0 <= k <= len,
            forall|j: int|
                0 <= j < k ==> #[trigger] a@.subrange(ab.0 as int, ab.1 as int)[j] == b@.subrange(
                    bb.0 as int,
                    bb.1 as int,
                )[j],
        decreases len - k,
    {
        if a[ab.0 + k] != b[bb.0 + k] {
            assert(a@.subrange(ab.0 as int, ab.1 as int)[k as int] != b@.subrange(bb.0 as int, bb.1 as int)[k as int]);
            return false;
        }
        k = k + 1;
    }
    assert(a@.subrange(ab.0 as int, ab.1 as int) =~= b@.subrange(bb.0 as int, bb.1 as int));
    true
}

/// The characters `from..to` of `s`, as an owned string.
pub fn slice_to_string(s: &str, from: usize, to: usize) -> (r: String)
    requires
        from <= to <= s@.len(),
    ensures
        r@ == s@.subrange(from as int, to as int),
{
    s.substring_char(from, to).to_owned()
}

/// `str::split`: the segments of `s` between occurrences of `sep`.
pub fn split_str(s: &str, sep: char) -> (v: Vec<String>)
    ensures
        v@.len() == split_on(s@, sep).len(),
        forall|i: int| 0 <= i < v@.len() ==> #[trigger] v@[i]@ == split_on(s@, sep)[i],
{
    let chars = chars_of(s);
    let bounds = split_bounds(&chars, sep);
    let mut v: Vec<String> = Vec::new();
    for k in 0..bounds.len()
        invariant
            chars@ == s@,
            bounds_within(chars@.len(), bounds@),
            runs_of(chars@, bounds@) == split_on(s@, sep),
            v@.len() == k,
            forall|i: int| 0 <= i < k ==> #[trigger] v@[i]@ == split_on(s@, sep)[i],
    {
        let (from, to) = bounds[k];
        assert(runs_of(chars@, bounds@)[k as int] == chars@.subrange(from as int, to as int));
        v.push(slice_to_string(s, from, to));
    }
    v
}

} // verus!

verus! {

/// `char::is_whitespace`: the characters with the Unicode `White_Space` property.
pub open spec fn is_ws(c: char) -> bool {
    let u = c as u32;
    ||| 0x09 <= u <= 0x0D
    ||| u == 0x20
    ||| u == 0x85
    ||| u == 0xA0
    ||| u == 0x1680
    ||| 0x2000 <= u <= 0x200A
    ||| u == 0x2028
    ||| u == 0x2029
    ||| u == 0x202F
    ||| u == 0x205F
    ||| u == 0x3000
}

/// Whether `c` is a whitespace character.
pub fn is_whitespace(c: char) -> (b: bool)
    ensures
        b == is_ws(c),
{
    let u = c as u32;
    (0x09 <= u && u <= 0x0D) || u == 0x20 || u == 0x85 || u == 0xA0 || u == 0x1680 || (0x2000
        <= u && u <= 0x200A) || u == 0x2028 || u == 0x2029 || u == 0x202F || u == 0x205F || u
        == 0x3000
}

/// State of a left-to-right scan of the first `n` characters of `s` for
/// whitespace-separated tokens: the tokens closed so far, and the token being read.
pub open spec fn token_state(s: Seq<char>, n: nat) -> (Seq<Seq<char>>, Seq<char>)
    decreases n,
{
    if n == 0 || n > s.len() {
        (seq![], seq![])
    } else {
        let prev = token_state(s, (n - 1) as nat);
        if is_ws(s[n - 1]) {
            if prev.1.len() > 0 {
                (prev.0.push(prev.1), seq![])
            } else {
                (prev.0, seq![])
            }
        } else {
            (prev.0, prev.1.push(s[n - 1]))
        }
    }
}

/// The non-empty runs of non-whitespace characters of `s`, as
/// `str::split_whitespace` yields them.
pub open spec fn whitespace_tokens(s: Seq<char>) -> Seq<Seq<char>> {
    let st = token_state(s, s.len());
    if st.1.len() > 0 {
        st.0.push(st.1)
    } else {
        st.0
    }
}

/// Start and end positions of the whitespace-separated tokens of `chars`.
pub fn token_bounds(chars: &Vec<char>) -> (b: Vec<(usize, usize)>)
    ensures
        bounds_within(chars@.len(), b@),
        runs_of(chars@, b@) == whitespace_tokens(chars@),
{
    let mut b: Vec<(usize, usize)> = Vec::new();
    let mut start: usize = 0;
    let n = chars.len();
    let mut i: usize = 0;
    while i < n
        invariant
            n == chars@.len(),
            0 <= start <= i <= n,
            bounds_within(chars@.len(), b@),
            token_state(chars@, i as nat).0 == runs_of(chars@, b@),
            token_state(chars@, i as nat).1 == chars@.subrange(start as int, i as int),
        decreases n - i,
    {
        let ghost prev_b = b@;
        if is_whitespace(chars[i]) {
            if start < i {
                b.push((start, i));
                assert(runs_of(chars@, b@) =~= runs_of(chars@, prev_b).push(
                    chars@.subrange(start as int, i as int),
                ));
            }
            start = i + 1;
            assert(chars@.subrange(start as int, i + 1) =~= Seq::<char>::empty());
        } else {
            assert(chars@.subrange(start as int, i + 1) =~= chars@.subrange(
                start as int,
                i as int,
            ).push(chars@[i as int]));
        }
        i = i + 1;
    }
    if start < n {
        let ghost prev_b = b@;
        b.push((start, n));
        assert(runs_of(chars@, b@) =~= runs_of(chars@, prev_b).push(
            chars@.subrange(start as int, n as int),
        ));
    }
    b
}

/// Whether `token` is one of the whitespace-separated tokens of `list`.
pub fn has_token(list: &str, token: &str) -> (r: bool)
    ensures
        r == whitespace_tokens(list@).contains(token@),
{
    let chars = chars_of(list);
    let tchars = chars_of(token);
    let bounds = token_bounds(&chars);
    let ghost toks = whitespace_tokens(list@);
    for k in 0..bounds.len()
        invariant
            chars@ == list@,
            tchars@ == token@,
            toks == whitespace_tokens(list@),
            bounds_within(chars@.len(), bounds@),
            runs_of(chars@, bounds@) == toks,
            forall|j: int| 0 <= j < k ==> #[trigger] toks[j] != token@,
    {
        assert(runs_of(chars@, bounds@)[k as int] == chars@.subrange(
            bounds@[k as int].0 as int,
            bounds@[k as int].1 as int,
        ));
        assert(tchars@.subrange(0, tchars@.len() as int) =~= tchars@);
        if runs_equal(&chars, bounds[k], &tchars, (0, tchars.len())) {
            assert(toks[k as int] == token@);
            return true;
        }
    }
    proof {
        if toks.contains(token@) {
            let j = choose|j: int| 0 <= j < toks.len() && toks[j] == token@;
            assert(toks[j] != token@);
        }
    }
    false
}

} // verus!
