//! Byte-level text utilities: substring search, trimming, case-insensitive
//! comparison. The scraped-response parsing of the cookie-session flow is
//! built on these.

use vstd::prelude::*;

verus! {

/// The bytes of an ASCII character sequence.
pub open spec fn ascii_seq(s: Seq<char>) -> Seq<u8> {
    Seq::new(s.len(), |i: int| s[i] as u8)
}

/// `n` occurs in `h` starting at position `i`.
pub open spec fn is_match_at(h: Seq<u8>, n: Seq<u8>, i: int) -> bool {
    0 <= i && i + n.len() <= h.len() && h.subrange(i, i + n.len() as int) == n
}

/// `n` occurs somewhere in `h`.
pub open spec fn contains_sub(h: Seq<u8>, n: Seq<u8>) -> bool {
    exists|i: int| is_match_at(h, n, i)
}

/// A byte is ASCII whitespace: space, tab, line feed or carriage return.
pub open spec fn is_ws(b: u8) -> bool {
    b == 32 || b == 9 || b == 10 || b == 13
}

/// `s` with its leading whitespace removed.
pub open spec fn trim_front(s: Seq<u8>) -> Seq<u8>
    decreases s.len(),
{
    if s.len() > 0 && is_ws(s[0]) {
        trim_front(s.drop_first())
    } else {
        s
    }
}

/// `s` with its trailing whitespace removed.
pub open spec fn trim_back(s: Seq<u8>) -> Seq<u8>
    decreases s.len(),
{
    if s.len() > 0 && is_ws(s[s.len() - 1]) {
        trim_back(s.drop_last())
    } else {
        s
    }
}

/// `s` with leading and trailing whitespace removed.
pub open spec fn trim_spec(s: Seq<u8>) -> Seq<u8> {
    trim_back(trim_front(s))
}

/// The ASCII lower-case fold of one byte.
pub open spec fn lower8(b: u8) -> u8 {
    if 65 <= b <= 90 {
        (b + 32) as u8
    } else {
        b
    }
}

/// The ASCII lower-case fold of a byte sequence.
pub open spec fn lower_seq(s: Seq<u8>) -> Seq<u8> {
    s.map_values(|b: u8| lower8(b))
}

/// The position of the first occurrence of `n` in `h`, if any.
pub open spec fn first_match(h: Seq<u8>, n: Seq<u8>) -> Option<int>
    decreases h.len(),
{
    if h.len() < n.len() {
        None
    } else if n.len() == 0 {
        Some(0)
    } else if h.subrange(0, n.len() as int) == n {
        Some(0)
    } else {
        match first_match(h.drop_first(), n) {
            None => None,
            Some(i) => Some(i + 1),
        }
    }
}

/// `first_match` returns the first position at which `n` occurs, and `None`
/// exactly when `n` does not occur.
pub proof fn lemma_first_match(h: Seq<u8>, n: Seq<u8>)
    ensures
        match first_match(h, n) {
            Some(i) => is_match_at(h, n, i) && forall|k: int| 0 <= k < i ==> !is_match_at(h, n, k),
            None => !contains_sub(h, n),
        },
    decreases h.len(),
{
    if h.len() < n.len() {
    } else if n.len() == 0 {
        assert(h.subrange(0, 0) =~= n);
        assert(is_match_at(h, n, 0));
    } else if h.subrange(0, n.len() as int) == n {
        assert(is_match_at(h, n, 0));
    } else {
        let hd = h.drop_first();
        lemma_first_match(hd, n);
        assert forall|k: int| 0 <= k && k + n.len() <= hd.len() implies is_match_at(hd, n, k)
            == is_match_at(h, n, k + 1) by {
            assert(hd.subrange(k, k + n.len()) =~= h.subrange(k + 1, k + 1 + n.len()));
        }
        assert(!is_match_at(h, n, 0));
        match first_match(hd, n) {
            None => {
                assert forall|k: int| !is_match_at(h, n, k) by {
                    if k > 0 && k + n.len() <= h.len() {
                        assert(!is_match_at(hd, n, k - 1));
                    }
                }
            },
            Some(i) => {
                assert(is_match_at(hd, n, i));
                assert(is_match_at(h, n, i + 1));
                assert forall|k: int| 0 <= k < i + 1 implies !is_match_at(h, n, k) by {
                    if k > 0 && k + n.len() <= h.len() {
                        assert(!is_match_at(hd, n, k - 1));
                    }
                }
            },
        }
    }
}

/// The position of the first occurrence of the byte `b` in `s`, if any.
pub open spec fn byte_index(s: Seq<u8>, b: u8) -> Option<int>
    decreases s.len(),
{
    if s.len() == 0 {
        None
    } else if s[0] == b {
        Some(0)
    } else {
        match byte_index(s.drop_first(), b) {
            None => None,
            Some(i) => Some(i + 1),
        }
    }
}

/// `byte_index` returns the first position holding `b`, and `None` exactly
/// when `b` does not occur.
pub proof fn lemma_byte_index(s: Seq<u8>, b: u8)
    ensures
        match byte_index(s, b) {
            Some(i) => 0 <= i < s.len() && s[i] == b && forall|k: int| 0 <= k < i ==> s[k] != b,
            None => forall|k: int| 0 <= k < s.len() ==> s[k] != b,
        },
    decreases s.len(),
{
    if s.len() > 0 && s[0] != b {
        let sd = s.drop_first();
        lemma_byte_index(sd, b);
        assert(forall|k: int| 0 <= k < sd.len() ==> sd[k] == s[k + 1]);
        match byte_index(sd, b) {
            None => {
                assert forall|k: int| 0 <= k < s.len() implies s[k] != b by {
                    if k > 0 {
                        assert(sd[k - 1] == s[k]);
                    }
                }
            },
            Some(i) => {
                assert(s[i + 1] == b);
                assert forall|k: int| 0 <= k < i + 1 implies s[k] != b by {
                    if k > 0 {
                        assert(sd[k - 1] == s[k]);
                    }
                }
            },
        }
    }
}

/// Finds the first position of the byte `b` in `v`.
pub fn find_byte(v: &Vec<u8>, b: u8) -> (r: Option<usize>)
    ensures
        match r {
            Some(i) => i < v@.len() && v@[i as int] == b && byte_index(v@, b) == Some(i as int),
            None => byte_index(v@, b) is None,
        },
{
    let n = v.len();
    let mut i: usize = 0;
    while i < n
        invariant
            n == v@.len(),
            i <= n,
            forall|k: int| 0 <= k < i ==> v@[k] != b,
        decreases n - i,
    {
        if v[i] == b {
            proof {
                lemma_byte_index(v@, b);
            }
            return Some(i);
        }
        i += 1;
    }
    proof {
        lemma_byte_index(v@, b);
    }
    None
}

/// Materialises an ASCII string literal as its byte vector.
pub fn ascii_literal(s: &str) -> (r: Vec<u8>)
    requires
        s.is_ascii(),
    ensures
        r@ == ascii_seq(s@),
{
    let r = s.as_bytes_vec();
    proof {
        broadcast use vstd::string::is_ascii_spec_bytes;

        assert(r@ =~= ascii_seq(s@));
    }
    r
}

/// Two byte vectors hold the same bytes.
pub fn bytes_eq(a: &Vec<u8>, b: &Vec<u8>) -> (r: bool)
    ensures
        r == (a@ == b@),
{
    if a.len() != b.len() {
        return false;
    }
    let n = a.len();
    let mut i: usize = 0;
    while i < n
        invariant
            n == a@.len(),
            n == b@.len(),
            i <= n,
            forall|k: int| 0 <= k < i ==> a@[k] == b@[k],
        decreases n - i,
    {
        if a[i] != b[i] {
            return false;
        }
        i += 1;
    }
    proof {
        assert(a@ =~= b@);
    }
    true
}

/// Two byte vectors are equal up to ASCII case.
pub fn eq_ignore_ascii_case(a: &Vec<u8>, b: &Vec<u8>) -> (r: bool)
    ensures
        r == (lower_seq(a@) == lower_seq(b@)),
{
    if a.len() != b.len() {
        proof {
            assert(lower_seq(a@).len() != lower_seq(b@).len());
        }
        return false;
    }
    let n = a.len();
    let mut i: usize = 0;
    while i < n
        invariant
            n == a@.len(),
            n == b@.len(),
            i <= n,
            forall|k: int| 0 <= k < i ==> lower8(a@[k]) == lower8(b@[k]),
        decreases n - i,
    {
        let x = a[i];
        let y = b[i];
        let xl: u8 = if 65 <= x && x <= 90 {
            x + 32
        } else {
            x
        };
        let yl: u8 = if 65 <= y && y <= 90 {
            y + 32
        } else {
            y
        };
        if xl != yl {
            proof {
                assert(lower_seq(a@)[i as int] != lower_seq(b@)[i as int]);
            }
            return false;
        }
        i += 1;
    }
    proof {
        assert(lower_seq(a@) =~= lower_seq(b@));
    }
    true
}

/// Copies the bytes of `v` between `from` (inclusive) and `to` (exclusive).
pub fn sub_vec(v: &Vec<u8>, from: usize, to: usize) -> (r: Vec<u8>)
    requires
        from <= to <= v@.len(),
    ensures
        r@ == v@.subrange(from as int, to as int),
{
    let mut r: Vec<u8> = Vec::new();
    let mut i: usize = from;
    while i < to
        invariant
            from <= i <= to <= v@.len(),
            r@ == v@.subrange(from as int, i as int),
        decreases to - i,
    {
        r.push(v[i]);
        proof {
            assert(r@ =~= v@.subrange(from as int, i + 1));
        }
        i += 1;
    }
    r
}

/// Finds the first occurrence of `n` in `h`.
pub fn find_sub(h: &Vec<u8>, n: &Vec<u8>) -> (r: Option<usize>)
    ensures
        match r {
            Some(i) => i + n@.len() <= h@.len() && is_match_at(h@, n@, i as int) && (forall|k: int|
                0 <= k < i ==> !is_match_at(h@, n@, k)) && first_match(h@, n@) == Some(i as int),
            None => !contains_sub(h@, n@) && first_match(h@, n@) is None,
        },
{
    proof {
        lemma_first_match(h@, n@);
    }
    let hl = h.len();
    let nl = n.len();
    if nl > hl {
        return None;
    }
    let last = hl - nl;
    let mut i: usize = 0;
    while i <= last
        invariant
            hl == h@.len(),
            nl == n@.len(),
            nl <= hl,
            last == hl - nl,
            i <= last + 1,
            forall|k: int| 0 <= k < i ==> !is_match_at(h@, n@, k),
        decreases last + 1 - i,
    {
        let mut j: usize = 0;
        while j < nl && h[i + j] == n[j]
            invariant
                hl == h@.len(),
                nl == n@.len(),
                i + nl <= hl,
                j <= nl,
                forall|t: int| 0 <= t < j ==> h@[i + t] == n@[t],
            decreases nl - j,
        {
            j += 1;
        }
        if j == nl {
            proof {
                assert(h@.subrange(i as int, i + nl) =~= n@);
                lemma_first_match(h@, n@);
                match first_match(h@, n@) {
                    None => {
                        assert(is_match_at(h@, n@, i as int));
                        assert(false);
                    },
                    Some(m) => {
                        if m < i {
                            assert(!is_match_at(h@, n@, m));
                            assert(false);
                        }
                        if m > i {
                            assert(!is_match_at(h@, n@, i as int));
                            assert(false);
                        }
                    },
                }
            }
            return Some(i);
        }
        proof {
            assert(h@.subrange(i as int, i + nl)[j as int] == h@[i + j]);
            assert(!is_match_at(h@, n@, i as int));
        }
        i += 1;
    }
    proof {
        assert(!contains_sub(h@, n@)) by {
            assert forall|k: int| !is_match_at(h@, n@, k) by {
                if 0 <= k && k + n@.len() <= h@.len() {
                    assert(k <= last);
                }
            }
        }
        lemma_first_match(h@, n@);
        match first_match(h@, n@) {
            Some(m) => {
                assert(is_match_at(h@, n@, m));
                assert(false);
            },
            None => {},
        }
    }
    None
}

/// `n` occurs somewhere in `h`.
pub fn contains_bytes(h: &Vec<u8>, n: &Vec<u8>) -> (r: bool)
    ensures
        r == contains_sub(h@, n@),
{
    match find_sub(h, n) {
        Some(_) => true,
        None => false,
    }
}

/// Removes leading and trailing ASCII whitespace.
pub fn trim_bytes(v: &Vec<u8>) -> (r: Vec<u8>)
    ensures
        r@ == trim_spec(v@),
{
    let n = v.len();
    proof {
        assert(v@.subrange(0, n as int) =~= v@);
    }
    let mut start: usize = 0;
    while start < n && (v[start] == 32 || v[start] == 9 || v[start] == 10 || v[start] == 13)
        invariant
            n == v@.len(),
            start <= n,
            trim_front(v@) == trim_front(v@.subrange(start as int, n as int)),
        decreases n - start,
    {
        proof {
            let s = v@.subrange(start as int, n as int);
            assert(s.drop_first() =~= v@.subrange(start + 1, n as int));
        }
        start += 1;
    }
    proof {
        let s = v@.subrange(start as int, n as int);
        if start < n {
            assert(!is_ws(s[0]));
        }
        assert(trim_front(v@) == s);
    }
    let mut end: usize = n;
    while end > start && (v[end - 1] == 32 || v[end - 1] == 9 || v[end - 1] == 10 || v[end - 1]
        == 13)
        invariant
            n == v@.len(),
            start <= end <= n,
            trim_front(v@) == v@.subrange(start as int, n as int),
            trim_back(v@.subrange(start as int, n as int)) == trim_back(
                v@.subrange(start as int, end as int),
            ),
        decreases end,
    {
        proof {
            let s = v@.subrange(start as int, end as int);
            assert(is_ws(s[s.len() - 1]));
            assert(s.drop_last() =~= v@.subrange(start as int, end - 1));
        }
        end -= 1;
    }
    proof {
        let s = v@.subrange(start as int, end as int);
        if end > start {
            assert(!is_ws(s[s.len() - 1]));
        }
        assert(trim_spec(v@) == s);
    }
    sub_vec(v, start, end)
}

} // verus!
