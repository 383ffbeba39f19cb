use vstd::prelude::*;
use vstd::utf8::*;
use vstd::string::*;

verus! {

broadcast use vstd::string::group_string_axioms;

/// The three dots that mark a shortened text.
pub open spec fn ellipsis() -> Seq<char> {
    seq!['.', '.', '.']
}

/// `s` cut to its first `max` bytes (UTF-8), followed by three dots; `s`
/// itself when it has at most `max` bytes.
pub open spec fn truncated(s: Seq<char>, max: nat) -> Seq<char> {
    if encode_utf8(s).len() <= max {
        s
    } else {
        decode_utf8(encode_utf8(s).take(max as int)) + ellipsis()
    }
}

/// `x` is an excerpt of `s` within `max` bytes: `s` itself when its UTF-8
/// encoding has at most `max` bytes; otherwise a prefix of `s` whose
/// encoding has exactly `max` bytes, followed by three dots.
pub open spec fn is_excerpt(s: Seq<char>, max: nat, x: Seq<char>) -> bool {
    if encode_utf8(s).len() <= max {
        x == s
    } else {
        exists|k: int| 0 <= k <= s.len() && encode_utf8(s.take(k)).len() == max
            && #[trigger] (s.take(k) + ellipsis()) == x
    }
}

/// What `truncate` gives is an excerpt in the sense of `is_excerpt`: the
/// whole text when it fits, else a prefix of exactly `max` bytes and three
/// dots.
pub proof fn lemma_truncated_is_excerpt(s: Seq<char>, max: nat)
    requires
        can_truncate(s, max),
    ensures
        is_excerpt(s, max, truncated(s, max)),
{
    let b = encode_utf8(s);
    if b.len() > max {
        encode_utf8_valid_utf8(s);
        valid_utf8_split(b, max as int);
        decode_utf8_split(b, max as int);
        encode_utf8_decode_utf8(s);
        let head = decode_utf8(b.subrange(0, max as int));
        let tail = decode_utf8(b.subrange(max as int, b.len() as int));
        assert(s == head + tail);
        let k = head.len() as int;
        assert(s.take(k) =~= head);
        decode_utf8_encode_utf8(b.subrange(0, max as int));
        assert(b.take(max as int) =~= b.subrange(0, max as int));
        assert(encode_utf8(s.take(k)).len() == max);
        assert(s.take(k) + ellipsis() == truncated(s, max));
    }
}

/// `truncate(s, max)` can cut `s`: the cut, if one is needed, falls on a
/// character boundary.
pub open spec fn can_truncate(s: Seq<char>, max: nat) -> bool {
    encode_utf8(s).len() <= max || is_char_boundary(encode_utf8(s), max as int)
}

/// `needle` occurs as a contiguous run of characters in `hay`.
pub open spec fn occurs_in(needle: Seq<char>, hay: Seq<char>) -> bool {
    exists|i: int| 0 <= i && i + needle.len() <= hay.len() && #[trigger] hay.subrange(i, i + needle.len()) == needle
}

/// Shortens `s` to `max` bytes, marking a cut with three dots. The cut must
/// fall on a character boundary.
pub fn truncate(s: &str, max: usize) -> (res: String)
    requires
        can_truncate(s@, max as nat),
    ensures
        res@ == truncated(s@, max as nat),
        is_excerpt(s@, max as nat, res@),
{
    proof {
        lemma_truncated_is_excerpt(s@, max as nat);
    }
    if s.as_bytes().len() <= max {
        s.to_string()
    } else {
        let (head, _tail) = s.split_at(max);
        let mut res = head.to_string();
        res.append("...");
        proof {
            reveal_strlit("...");
            encode_utf8_decode_utf8(head@);
            assert(encode_utf8(s@).take(max as int) =~= head.spec_bytes());
            assert("..."@ =~= ellipsis());
        }
        res
    }
}

/// The characters of `s`, in order.
pub fn chars_of(s: &str) -> (res: Vec<char>)
    ensures
        res@ == s@,
{
    let mut res: Vec<char> = Vec::new();
    for c in it: s.chars()
        invariant
            it.seq() == s@,
            res@ == it.seq().take(it.index()),
    {
        res.push(c);
    }
    res
}

/// Whether `needle` occurs at position `start` of `hay`.
fn occurs_at(hay: &Vec<char>, needle: &Vec<char>, start: usize) -> (res: bool)
    requires
        start + needle@.len() <= hay@.len(),
    ensures
        res == (hay@.subrange(start as int, start + needle@.len()) == needle@),
{
    let n = needle.len();
    let hl = hay.len();
    let mut k: usize = 0;
    while k < n
        invariant
            n == needle@.len(),
            hl == hay@.len(),
            start + n <= hay@.len(),
            k <= n,
            forall|j: int| 0 <= j < k ==> hay@[start + j] == needle@[j],
        decreases n - k,
    {
        if hay[start + k] != needle[k] {
            assert(hay@.subrange(start as int, start + n)[k as int] != needle@[k as int]);
            return false;
        }
        k += 1;
    }
    assert(hay@.subrange(start as int, start + n) =~= needle@);
    true
}

/// Whether `needle` occurs as a contiguous run of characters in `hay`.
pub fn contains_chars(hay: &Vec<char>, needle: &Vec<char>) -> (res: bool)
    ensures
        res == occurs_in(needle@, hay@),
{
    let n = needle.len();
    let h = hay.len();
    if n > h {
        return false;
    }
    let mut i: usize = 0;
    loop
        invariant
            n == needle@.len(),
            h == hay@.len(),
            n <= h,
            i <= h - n,
            forall|j: int| 0 <= j < i ==> #[trigger] hay@.subrange(j, j + n) != needle@,
        decreases h - n - i,
    {
        if occurs_at(hay, needle, i) {
            return true;
        }
        if i == h - n {
            return false;
        }
        i += 1;
    }
}

/// Whether `a` and `b` hold the same characters.
pub fn chars_equal(a: &Vec<char>, b: &Vec<char>) -> (res: bool)
    ensures
        res == (a@ == b@),
{
    if a.len() != b.len() {
        return false;
    }
    let res = occurs_at(a, b, 0);
    assert(a@.subrange(0, b@.len() as int) =~= a@);
    res
}

} // verus!
