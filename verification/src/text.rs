//! Text primitives: whitespace, trimming, suffixes and path joining.

use vstd::prelude::*;

verus! {

/// Whether `c` carries the Unicode `White_Space` property.
pub open spec fn is_white_space(c: char) -> bool {
    let n = c as u32;
    ||| 0x09 <= n <= 0x0D
    ||| n == 0x20
    ||| n == 0x85
    ||| n == 0xA0
    ||| n == 0x1680
    ||| 0x2000 <= n <= 0x200A
    ||| n == 0x2028
    ||| n == 0x2029
    ||| n == 0x202F
    ||| n == 0x205F
    ||| n == 0x3000
}

/// The number of whitespace characters `s` starts with.
pub open spec fn leading_white_space(s: Seq<char>) -> nat
    decreases s.len(),
{
    if s.len() > 0 && is_white_space(s[0]) {
        1 + leading_white_space(s.drop_first())
    } else {
        0
    }
}

/// The number of whitespace characters `s` ends with.
pub open spec fn trailing_white_space(s: Seq<char>) -> nat
    decreases s.len(),
{
    if s.len() > 0 && is_white_space(s.last()) {
        1 + trailing_white_space(s.drop_last())
    } else {
        0
    }
}

/// `s` without the whitespace at its start and at its end.
pub open spec fn trimmed(s: Seq<char>) -> Seq<char> {
    let rest = s.skip(leading_white_space(s) as int);
    rest.take(rest.len() - trailing_white_space(rest))
}

/// Every character of `s` is whitespace.
pub open spec fn all_white_space(s: Seq<char>) -> bool {
    forall|i: int| 0 <= i < s.len() ==> is_white_space(#[trigger] s[i])
}

/// A whitespace prefix of length `k` that stops at a non-whitespace
/// character, or at the end, is the whole leading whitespace.
pub proof fn lemma_leading_is(s: Seq<char>, k: int)
    requires
        0 <= k <= s.len(),
        all_white_space(s.take(k)),
        k < s.len() ==> !is_white_space(s[k]),
    ensures
        leading_white_space(s) == k,
    decreases k,
{
    if k > 0 {
        assert(s.take(k)[0] == s[0]);
        let rest = s.drop_first();
        assert forall|i: int| 0 <= i < k - 1 implies is_white_space(
            #[trigger] rest.take(k - 1)[i],
        ) by {
            assert(rest.take(k - 1)[i] == s.take(k)[i + 1]);
        }
        lemma_leading_is(rest, k - 1);
    }
}

/// A whitespace suffix of length `k` that stops at a non-whitespace
/// character, or at the start, is the whole trailing whitespace.
pub proof fn lemma_trailing_is(s: Seq<char>, k: int)
    requires
        0 <= k <= s.len(),
        all_white_space(s.skip(s.len() - k)),
        k < s.len() ==> !is_white_space(s[s.len() - k - 1]),
    ensures
        trailing_white_space(s) == k,
    decreases k,
{
    if k > 0 {
        assert(s.skip(s.len() - k)[k - 1] == s.last());
        let rest = s.drop_last();
        assert forall|i: int| 0 <= i < k - 1 implies is_white_space(
            #[trigger] rest.skip(rest.len() - (k - 1))[i],
        ) by {
            assert(rest.skip(rest.len() - (k - 1))[i] == s.skip(s.len() - k)[i]);
        }
        lemma_trailing_is(rest, k - 1);
    }
}

/// The leading whitespace of `s` is whitespace, and what follows it is not.
pub proof fn lemma_leading_props(s: Seq<char>)
    ensures
        leading_white_space(s) <= s.len(),
        all_white_space(s.take(leading_white_space(s) as int)),
        leading_white_space(s) < s.len() ==> !is_white_space(s[leading_white_space(s) as int]),
    decreases s.len(),
{
    if s.len() > 0 && is_white_space(s[0]) {
        let rest = s.drop_first();
        lemma_leading_props(rest);
        let k = leading_white_space(rest) as int;
        assert forall|i: int| 0 <= i < k + 1 implies is_white_space(#[trigger] s.take(k + 1)[i]) by {
            if i > 0 {
                assert(s.take(k + 1)[i] == rest.take(k)[i - 1]);
            }
        }
        if k + 1 < s.len() {
            assert(s[k + 1] == rest[k]);
        }
    }
}

/// The trailing whitespace of `s` is whitespace, and what precedes it is not.
pub proof fn lemma_trailing_props(s: Seq<char>)
    ensures
        trailing_white_space(s) <= s.len(),
        all_white_space(s.skip(s.len() - trailing_white_space(s))),
        trailing_white_space(s) < s.len() ==> !is_white_space(
            s[s.len() - trailing_white_space(s) - 1],
        ),
    decreases s.len(),
{
    if s.len() > 0 && is_white_space(s.last()) {
        let rest = s.drop_last();
        lemma_trailing_props(rest);
        let k = trailing_white_space(rest) as int;
        let tail = s.skip(s.len() - (k + 1));
        assert forall|i: int| 0 <= i < tail.len() implies is_white_space(#[trigger] tail[i]) by {
            if i < k {
                assert(tail[i] == rest.skip(rest.len() - k)[i]);
            }
        }
        if k + 1 < s.len() {
            assert(s[s.len() - (k + 1) - 1] == rest[rest.len() - k - 1]);
        }
    }
}

/// Trimming a text that is whitespace throughout leaves nothing.
pub proof fn lemma_trimmed_of_white_space(s: Seq<char>)
    requires
        all_white_space(s),
    ensures
        trimmed(s) == Seq::<char>::empty(),
{
    assert(s.take(s.len() as int) =~= s);
    lemma_leading_is(s, s.len() as int);
    let rest = s.skip(s.len() as int);
    lemma_trailing_props(rest);
    assert(rest.take(rest.len() - trailing_white_space(rest)) =~= Seq::<char>::empty());
}

/// A trimmed text neither starts nor ends with whitespace.
pub proof fn lemma_trimmed_is_tight(s: Seq<char>)
    ensures
        trimmed(s).len() > 0 ==> !is_white_space(trimmed(s)[0]) && !is_white_space(
            trimmed(s).last(),
        ),
        leading_white_space(trimmed(s)) == 0,
        trailing_white_space(trimmed(s)) == 0,
{
    lemma_leading_props(s);
    let rest = s.skip(leading_white_space(s) as int);
    lemma_trailing_props(rest);
    let t = trimmed(s);
    if t.len() > 0 {
        assert(t[0] == s[leading_white_space(s) as int]);
        assert(t.last() == rest[rest.len() - trailing_white_space(rest) - 1]);
    }
}

/// Trimming twice is trimming once.
pub proof fn lemma_trimmed_twice(s: Seq<char>)
    ensures
        trimmed(trimmed(s)) == trimmed(s),
{
    lemma_trimmed_is_tight(s);
    let t = trimmed(s);
    assert(t.skip(0) =~= t);
    assert(t.take(t.len() as int) =~= t);
}

/// Whitespace put before and after a text does not change what trimming
/// leaves of it.
pub proof fn lemma_trim_ignores_padding(left: Seq<char>, body: Seq<char>, right: Seq<char>)
    requires
        all_white_space(left),
        all_white_space(right),
    ensures
        trimmed(left + body + right) == trimmed(body),
{
    let whole = left + body + right;
    let lb = leading_white_space(body) as int;
    lemma_leading_props(body);
    if lb == body.len() {
        assert(body.take(lb) =~= body);
        assert forall|i: int| 0 <= i < whole.len() implies is_white_space(#[trigger] whole[i]) by {
            if i < left.len() {
                assert(whole[i] == left[i]);
            } else if i < left.len() + body.len() {
                assert(whole[i] == body[i - left.len()]);
            } else {
                assert(whole[i] == right[i - left.len() - body.len()]);
            }
        }
        lemma_trimmed_of_white_space(whole);
        lemma_trimmed_of_white_space(body);
    } else {
        let k = left.len() + lb;
        assert forall|i: int| 0 <= i < k implies is_white_space(#[trigger] whole.take(k)[i]) by {
            if i < left.len() {
                assert(whole.take(k)[i] == left[i]);
            } else {
                assert(whole.take(k)[i] == body.take(lb)[i - left.len()]);
            }
        }
        assert(whole[k] == body[lb]);
        lemma_leading_is(whole, k);
        let inner = body.skip(lb);
        let rest = whole.skip(k);
        assert(rest =~= inner + right);
        let tb = trailing_white_space(inner) as int;
        lemma_trailing_props(inner);
        assert(!is_white_space(inner[0]));
        assert(tb < inner.len()) by {
            if tb == inner.len() {
                assert(inner.skip(0)[0] == inner[0]);
            }
        }
        let m = right.len() + tb;
        let tail = rest.skip(rest.len() - m);
        assert forall|i: int| 0 <= i < tail.len() implies is_white_space(#[trigger] tail[i]) by {
            if i < tb {
                assert(tail[i] == inner.skip(inner.len() - tb)[i]);
            } else {
                assert(tail[i] == right[i - tb]);
            }
        }
        assert(rest[rest.len() - m - 1] == inner[inner.len() - tb - 1]);
        lemma_trailing_is(rest, m);
        assert(rest.take(rest.len() - m) =~= inner.take(inner.len() - tb));
    }
}

/// Whether `c` is whitespace.
pub fn is_whitespace(c: char) -> (r: bool)
    ensures
        r == is_white_space(c),
{
    let n: u32 = c as u32;
    (0x09 <= n && n <= 0x0D) || n == 0x20 || n == 0x85 || n == 0xA0 || n == 0x1680 || (0x2000 <= n
        && n <= 0x200A) || n == 0x2028 || n == 0x2029 || n == 0x202F || n == 0x205F || n == 0x3000
}

/// The part of `s` between its leading and its trailing whitespace.
pub fn trim(s: &str) -> (r: &str)
    ensures
        r@ == trimmed(s@),
{
    let n: usize = s.unicode_len();
    let mut lo: usize = 0;
    while lo < n && is_whitespace(s.get_char(lo))
        invariant
            lo <= n,
            n == s@.len(),
            all_white_space(s@.take(lo as int)),
        decreases n - lo,
    {
        lo = lo + 1;
    }
    let mut hi: usize = n;
    while hi > lo && is_whitespace(s.get_char(hi - 1))
        invariant
            lo <= hi <= n,
            n == s@.len(),
            all_white_space(s@.skip(hi as int)),
        decreases hi,
    {
        proof {
            let prev = s@.skip(hi as int);
            let next = s@.skip(hi - 1);
            assert forall|i: int| 0 <= i < next.len() implies is_white_space(#[trigger] next[i]) by {
                if i > 0 {
                    assert(next[i] == prev[i - 1]);
                }
            }
        }
        hi = hi - 1;
    }
    proof {
        lemma_leading_is(s@, lo as int);
        let rest = s@.skip(lo as int);
        assert(rest.skip(rest.len() - (n - hi)) =~= s@.skip(hi as int));
        lemma_trailing_is(rest, n - hi);
        assert(rest.take(rest.len() - (n - hi)) =~= s@.subrange(lo as int, hi as int));
    }
    s.substring_char(lo, hi)
}

/// Whether `s` ends with `suffix`.
pub open spec fn has_suffix(s: Seq<char>, suffix: Seq<char>) -> bool {
    suffix.len() <= s.len() && s.skip(s.len() - suffix.len()) == suffix
}

/// The part of `path` after its last `/`: all of it where it holds none.
pub open spec fn file_name(path: Seq<char>) -> Seq<char>
    decreases path.len(),
{
    if path.len() == 0 || path.last() == '/' {
        Seq::empty()
    } else {
        file_name(path.drop_last()).push(path.last())
    }
}

/// `name` placed in the directory `dir`: a `/` stands between the two unless
/// `dir` is empty or ends with one.
pub open spec fn joined(dir: Seq<char>, name: Seq<char>) -> Seq<char> {
    if dir.len() == 0 || dir.last() == '/' {
        dir + name
    } else {
        dir + seq!['/'] + name
    }
}

/// A tail of `path` that holds no `/` and starts right after one, or at the
/// start, is the file name.
pub proof fn lemma_file_name_is(path: Seq<char>, start: int)
    requires
        0 <= start <= path.len(),
        forall|i: int| start <= i < path.len() ==> path[i] != '/',
        start > 0 ==> path[start - 1] == '/',
    ensures
        file_name(path) == path.skip(start),
    decreases path.len() - start,
{
    if start == path.len() {
        assert(path.skip(start) =~= Seq::<char>::empty());
    } else {
        let front = path.drop_last();
        lemma_file_name_is(front, start);
        assert(front.skip(start).push(path.last()) =~= path.skip(start));
    }
}

/// Whether the two texts hold the same characters.
pub fn same_text(a: &str, b: &str) -> (r: bool)
    ensures
        r == (a@ == b@),
{
    let left = a.to_owned();
    let right = b.to_owned();
    left == right
}

/// `s` without `suffix` at its end, where it ends with it.
pub fn strip_suffix<'a>(s: &'a str, suffix: &str) -> (r: Option<&'a str>)
    ensures
        r is Some <==> has_suffix(s@, suffix@),
        r is Some ==> r.unwrap()@ == s@.take(s@.len() - suffix@.len()),
{
    let n: usize = s.unicode_len();
    let m: usize = suffix.unicode_len();
    if m > n {
        return None;
    }
    let tail = s.substring_char(n - m, n);
    assert(tail@ =~= s@.skip(n - m));
    if same_text(tail, suffix) {
        Some(s.substring_char(0, n - m))
    } else {
        None
    }
}

/// The part of `path` after its last `/`.
pub fn file_name_of(path: &str) -> (r: &str)
    ensures
        r@ == file_name(path@),
{
    let n: usize = path.unicode_len();
    let mut start: usize = n;
    while start > 0 && path.get_char(start - 1) != '/'
        invariant
            start <= n,
            n == path@.len(),
            forall|i: int| start <= i < n ==> path@[i] != '/',
        decreases start,
    {
        start = start - 1;
    }
    proof {
        lemma_file_name_is(path@, start as int);
    }
    path.substring_char(start, n)
}

/// `name` placed in the directory `dir`.
pub fn join(dir: &str, name: &str) -> (r: String)
    ensures
        r@ == joined(dir@, name@),
{
    let n: usize = dir.unicode_len();
    let mut out = dir.to_owned();
    if n > 0 && dir.get_char(n - 1) != '/' {
        proof {
            reveal_strlit("/");
            assert("/"@ =~= seq!['/']);
        }
        out.append("/");
    }
    out.append(name);
    out
}

} // verus!
