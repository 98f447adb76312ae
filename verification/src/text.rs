//! Plain-text building blocks: decimal rendering of integers, lowercase
//! hex rendering of bytes, the space-joined rendering of key bytes, and
//! substring search. These define the canonical forms that every hash in
//! the chain is computed over.

use vstd::prelude::*;
use vstd::string::StringExecFns;

verus! {

/// The decimal digit character for a value below ten.
pub open spec fn dec_digit(d: nat) -> char
    recommends
        d < 10,
{
    if d == 0 {
        '0'
    } else if d == 1 {
        '1'
    } else if d == 2 {
        '2'
    } else if d == 3 {
        '3'
    } else if d == 4 {
        '4'
    } else if d == 5 {
        '5'
    } else if d == 6 {
        '6'
    } else if d == 7 {
        '7'
    } else if d == 8 {
        '8'
    } else {
        '9'
    }
}

/// The usual decimal rendering of a natural number, without leading zeros
/// (except for zero itself).
pub open spec fn dec_of(n: nat) -> Seq<char>
    decreases n,
{
    if n < 10 {
        seq![dec_digit(n)]
    } else {
        dec_of(n / 10) + seq![dec_digit(n % 10)]
    }
}

/// The lowercase hex digit character for a value below sixteen.
pub open spec fn hex_digit(d: nat) -> char
    recommends
        d < 16,
{
    if d < 10 {
        dec_digit(d)
    } else if d == 10 {
        'a'
    } else if d == 11 {
        'b'
    } else if d == 12 {
        'c'
    } else if d == 13 {
        'd'
    } else if d == 14 {
        'e'
    } else {
        'f'
    }
}

/// Lowercase hex rendering of a byte sequence, two digits per byte.
pub open spec fn hex_of(bs: Seq<u8>) -> Seq<char>
    decreases bs.len(),
{
    if bs.len() == 0 {
        Seq::empty()
    } else {
        seq![hex_digit(bs.first() as nat / 16), hex_digit(bs.first() as nat % 16)]
            + hex_of(bs.drop_first())
    }
}

/// The rest of a space-joined decimal rendering: a separator before each
/// further byte.
pub open spec fn key_str_rest(bs: Seq<u8>) -> Seq<char>
    decreases bs.len(),
{
    if bs.len() == 0 {
        Seq::empty()
    } else {
        seq![' '] + dec_of(bs.first() as nat) + key_str_rest(bs.drop_first())
    }
}

/// Byte sequence rendered as space-joined decimal numbers ("1 2 3").
pub open spec fn key_str(bs: Seq<u8>) -> Seq<char> {
    if bs.len() == 0 {
        Seq::empty()
    } else {
        dec_of(bs.first() as nat) + key_str_rest(bs.drop_first())
    }
}

/// The rest of a JSON byte-array rendering: a comma before each further
/// byte.
pub open spec fn json_bytes_rest(bs: Seq<u8>) -> Seq<char>
    decreases bs.len(),
{
    if bs.len() == 0 {
        Seq::empty()
    } else {
        seq![','] + dec_of(bs.first() as nat) + json_bytes_rest(bs.drop_first())
    }
}

/// The JSON rendering of a byte sequence: decimal numbers between
/// brackets ("[1,2,30]").
pub open spec fn json_bytes(bs: Seq<u8>) -> Seq<char> {
    if bs.len() == 0 {
        seq!['['] + seq![']']
    } else {
        seq!['['] + dec_of(bs.first() as nat) + json_bytes_rest(bs.drop_first()) + seq![']']
    }
}

/// The JSON rendering of a byte vector.
pub fn bytes_to_json(data: &Vec<u8>) -> (r: String)
    ensures
        r@ == json_bytes(data@),
{
    proof {
        reveal_strlit("[");
        reveal_strlit("]");
        reveal_strlit(",");
    }
    let mut r = String::from_str("[");
    if data.len() == 0 {
        r.append("]");
        proof {
            assert(r@ =~= json_bytes(data@));
        }
        return r;
    }
    let n = data.len();
    let first = u64_to_dec(data[0] as u64);
    r.append(first.as_str());
    proof {
        assert(data@.drop_first() =~= data@.skip(1));
    }
    for i in 1..n
        invariant
            n == data@.len(),
            n >= 1,
            seq!['['] + dec_of(data@.first() as nat) + json_bytes_rest(data@.drop_first()) =~= r@
                + json_bytes_rest(data@.skip(i as int)),
    {
        r.append(",");
        let d = u64_to_dec(data[i] as u64);
        r.append(d.as_str());
        proof {
            reveal_strlit(",");
            assert(data@.skip(i as int).drop_first() =~= data@.skip(i + 1));
        }
    }
    r.append("]");
    proof {
        assert(r@ =~= json_bytes(data@));
    }
    r
}

/// The hex rendering of a byte sequence has two characters per byte.
pub proof fn lemma_hex_of_len(bs: Seq<u8>)
    ensures
        hex_of(bs).len() == 2 * bs.len(),
    decreases bs.len(),
{
    if bs.len() > 0 {
        lemma_hex_of_len(bs.drop_first());
    }
}

/// `needle` occurs somewhere in `hay` as a contiguous run.
pub open spec fn contains_seq(hay: Seq<char>, needle: Seq<char>) -> bool {
    exists|i: int|
        0 <= i && i + needle.len() <= hay.len() && #[trigger] hay.subrange(i, i + needle.len())
            == needle
}

fn digit_str(d: u64) -> (r: &'static str)
    requires
        d < 10,
    ensures
        r@ == seq![dec_digit(d as nat)],
{
    proof {
        reveal_strlit("0");
        reveal_strlit("1");
        reveal_strlit("2");
        reveal_strlit("3");
        reveal_strlit("4");
        reveal_strlit("5");
        reveal_strlit("6");
        reveal_strlit("7");
        reveal_strlit("8");
        reveal_strlit("9");
    }
    let r = if d == 0 {
        "0"
    } else if d == 1 {
        "1"
    } else if d == 2 {
        "2"
    } else if d == 3 {
        "3"
    } else if d == 4 {
        "4"
    } else if d == 5 {
        "5"
    } else if d == 6 {
        "6"
    } else if d == 7 {
        "7"
    } else if d == 8 {
        "8"
    } else {
        "9"
    };
    proof {
        assert(r@ =~= seq![dec_digit(d as nat)]);
    }
    r
}

fn hex_digit_str(d: u64) -> (r: &'static str)
    requires
        d < 16,
    ensures
        r@ == seq![hex_digit(d as nat)],
{
    if d < 10 {
        digit_str(d)
    } else {
        proof {
            reveal_strlit("a");
            reveal_strlit("b");
            reveal_strlit("c");
            reveal_strlit("d");
            reveal_strlit("e");
            reveal_strlit("f");
        }
        let r = if d == 10 {
            "a"
        } else if d == 11 {
            "b"
        } else if d == 12 {
            "c"
        } else if d == 13 {
            "d"
        } else if d == 14 {
            "e"
        } else {
            "f"
        };
        proof {
            assert(r@ =~= seq![hex_digit(d as nat)]);
        }
        r
    }
}

/// Decimal rendering of a `u64`.
pub fn u64_to_dec(n: u64) -> (r: String)
    ensures
        r@ == dec_of(n as nat),
    decreases n,
{
    if n < 10 {
        String::from_str(digit_str(n))
    } else {
        let mut s = u64_to_dec(n / 10);
        s.append(digit_str(n % 10));
        s
    }
}

/// Lowercase hex rendering of a byte vector.
pub fn to_hex(data: &Vec<u8>) -> (r: String)
    ensures
        r@ == hex_of(data@),
{
    let mut r = String::new();
    let n = data.len();
    proof {
        assert(data@.skip(0) =~= data@);
    }
    for i in 0..n
        invariant
            n == data@.len(),
            hex_of(data@) =~= r@ + hex_of(data@.skip(i as int)),
    {
        let b = data[i];
        r.append(hex_digit_str((b / 16) as u64));
        r.append(hex_digit_str((b % 16) as u64));
        proof {
            assert(data@.skip(i as int).drop_first() =~= data@.skip(i + 1));
        }
    }
    r
}

/// Space-joined decimal rendering of a byte vector.
pub fn bytes_to_dec_str(data: &Vec<u8>) -> (r: String)
    ensures
        r@ == key_str(data@),
{
    if data.len() == 0 {
        return String::new();
    }
    let n = data.len();
    let mut r = u64_to_dec(data[0] as u64);
    proof {
        reveal_strlit(" ");
        assert(data@.drop_first() =~= data@.skip(1));
    }
    for i in 1..n
        invariant
            n == data@.len(),
            n >= 1,
            key_str(data@) =~= r@ + key_str_rest(data@.skip(i as int)),
    {
        r.append(" ");
        let d = u64_to_dec(data[i] as u64);
        r.append(d.as_str());
        proof {
            reveal_strlit(" ");
            assert(data@.skip(i as int).drop_first() =~= data@.skip(i + 1));
        }
    }
    r
}

/// Whether the window of `hay` starting at `i` equals the first `k`
/// characters of `needle_src`.
fn window_eq(hay: &str, i: usize, needle_src: &str, k: usize) -> (r: bool)
    requires
        i + k <= hay@.len(),
        k <= needle_src@.len(),
    ensures
        r == (hay@.subrange(i as int, i + k as int) == needle_src@.subrange(0, k as int)),
{
    let hay_len = hay.unicode_len();
    let ghost win = hay@.subrange(i as int, i + k as int);
    let ghost pre = needle_src@.subrange(0, k as int);
    let mut j: usize = 0;
    while j < k
        invariant
            i + k <= hay@.len(),
            hay_len == hay@.len(),
            k <= needle_src@.len(),
            j <= k,
            win == hay@.subrange(i as int, i + k as int),
            pre == needle_src@.subrange(0, k as int),
            forall|q: int| 0 <= q < j ==> #[trigger] hay@[i + q] == needle_src@[q],
        decreases k - j,
    {
        let hc = hay.get_char(i + j);
        let pc = needle_src.get_char(j);
        if hc != pc {
            proof {
                assert(win[j as int] == hay@[i + j as int]);
                assert(pre[j as int] == needle_src@[j as int]);
            }
            return false;
        }
        j = j + 1;
    }
    proof {
        assert forall|m: int| 0 <= m < k implies win[m] == pre[m] by {
            assert(win[m] == hay@[i + m]);
            assert(pre[m] == needle_src@[m]);
        }
        assert(win =~= pre);
    }
    true
}

/// Whether the first `k` characters of `prefix_src` occur as a contiguous
/// run anywhere in `hay`.
pub fn contains_prefix_of(hay: &str, prefix_src: &str, k: usize) -> (r: bool)
    requires
        k <= prefix_src@.len(),
    ensures
        r == contains_seq(hay@, prefix_src@.subrange(0, k as int)),
{
    let hay_len = hay.unicode_len();
    if k == 0 {
        proof {
            let needle = prefix_src@.subrange(0, k as int);
            assert(needle.len() == 0);
            assert(hay@.subrange(0, 0 + needle.len() as int) =~= needle);
        }
        return true;
    }
    if k > hay_len {
        return false;
    }
    let mut i: usize = 0;
    while i <= hay_len - k
        invariant
            1 <= k <= hay_len,
            hay_len == hay@.len(),
            k <= prefix_src@.len(),
            i <= hay_len - k + 1,
            forall|p: int|
                0 <= p < i ==> #[trigger] hay@.subrange(p, p + k as int) != prefix_src@.subrange(
                    0,
                    k as int,
                ),
        decreases hay_len - k - i + 1,
    {
        if window_eq(hay, i, prefix_src, k) {
            proof {
                let ghost needle = prefix_src@.subrange(0, k as int);
                assert(hay@.subrange(i as int, i + needle.len()) == needle);
            }
            return true;
        }
        i = i + 1;
    }
    false
}

} // verus!
