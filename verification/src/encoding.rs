//! Base64, for handing the content of a file to the page.

use vstd::prelude::*;

verus! {

/// The character that stands for a value of six bits: `A` to `Z`, `a` to
/// `z`, `0` to `9`, `+` and `/`, by their ASCII codes.
pub open spec fn sextet_char(v: nat) -> char {
    if v < 26 {
        ((65 + v) as u8) as char
    } else if v < 52 {
        ((97 + (v - 26)) as u8) as char
    } else if v < 62 {
        ((48 + (v - 52)) as u8) as char
    } else if v == 62 {
        '+'
    } else {
        '/'
    }
}

/// The four characters for a group of three bytes.
pub open spec fn group_chars(b0: nat, b1: nat, b2: nat) -> Seq<char> {
    seq![
        sextet_char(b0 / 4),
        sextet_char((b0 % 4) * 16 + b1 / 16),
        sextet_char((b1 % 16) * 4 + b2 / 64),
        sextet_char(b2 % 64),
    ]
}

/// The Base64 text of a sequence of bytes, with the standard alphabet; a
/// last group of one or two bytes is filled up with `=`.
pub open spec fn base64(data: Seq<u8>) -> Seq<char>
    decreases data.len(),
{
    if data.len() == 0 {
        Seq::empty()
    } else if data.len() == 1 {
        group_chars(data[0] as nat, 0, 0).subrange(0, 2) + seq!['=', '=']
    } else if data.len() == 2 {
        group_chars(data[0] as nat, data[1] as nat, 0).subrange(0, 3) + seq!['=']
    } else {
        group_chars(data[0] as nat, data[1] as nat, data[2] as nat) + base64(
            data.subrange(3, data.len() as int),
        )
    }
}

fn sextet(v: u8) -> (c: char)
    requires
        v < 64,
    ensures
        c == sextet_char(v as nat),
{
    if v < 26 {
        (65u8 + v) as char
    } else if v < 52 {
        (97u8 + (v - 26)) as char
    } else if v < 62 {
        (48u8 + (v - 52)) as char
    } else if v == 62 {
        '+'
    } else {
        '/'
    }
}

/// Encodes bytes as Base64.
pub fn base64_encode(data: &[u8]) -> (out: String)
    ensures
        out@ == base64(data@),
{
    let n: usize = data.len();
    let mut out = String::new();
    let mut i: usize = 0;
    assert(data@.subrange(0, n as int) == data@);
    while i < n
        invariant
            i <= n,
            n == data@.len(),
            base64(data@) == out@ + base64(data@.subrange(i as int, n as int)),
        decreases n - i,
    {
        let ghost rest = data@.subrange(i as int, n as int);
        let ghost before = out@;
        let b0: u8 = data[i];
        let b1: u8 = if n - i > 1 {
            data[i + 1]
        } else {
            0
        };
        let b2: u8 = if n - i > 2 {
            data[i + 2]
        } else {
            0
        };
        out.push(sextet(b0 / 4));
        out.push(sextet((b0 % 4) * 16 + b1 / 16));
        if n - i > 1 {
            out.push(sextet((b1 % 16) * 4 + b2 / 64));
        } else {
            out.push('=');
        }
        if n - i > 2 {
            out.push(sextet(b2 % 64));
        } else {
            out.push('=');
        }
        proof {
            assert(rest[0] == b0);
            if n - i > 2 {
                assert(rest[1] == b1 && rest[2] == b2);
                assert(rest.subrange(3, rest.len() as int) =~= data@.subrange(i + 3, n as int));
                assert(out@ =~= before + group_chars(b0 as nat, b1 as nat, b2 as nat));
                assert(base64(data@) =~= out@ + base64(data@.subrange(i + 3, n as int)));
            } else if n - i > 1 {
                assert(rest[1] == b1);
                assert(out@ =~= before + base64(rest));
                assert(data@.subrange(n as int, n as int) =~= Seq::<u8>::empty());
                assert(base64(data@) =~= out@ + base64(data@.subrange(n as int, n as int)));
            } else {
                assert(out@ =~= before + base64(rest));
                assert(data@.subrange(n as int, n as int) =~= Seq::<u8>::empty());
                assert(base64(data@) =~= out@ + base64(data@.subrange(n as int, n as int)));
            }
        }
        if n - i > 2 {
            i += 3;
        } else {
            i = n;
        }
    }
    assert(data@.subrange(n as int, n as int) =~= Seq::<u8>::empty());
    out
}

} // verus!
