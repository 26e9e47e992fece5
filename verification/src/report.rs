//! Rendering of the final report: fixed-point balances and account rows as
//! delimited text, with every byte of the output pinned down by spec
//! functions.

use crate::account::Account;
use crate::account::AccountView;
use crate::account::account_inv;
use crate::account::lemma_disputed_sum_nonneg;
use crate::transaction::AccountId;
use vstd::prelude::*;

verus! {

/// The decimal digits of a natural number, most significant first.
pub open spec fn dec_u(n: nat) -> Seq<u8>
    decreases n,
{
    if n < 10 {
        seq![(n + ('0' as u8)) as u8]
    } else {
        dec_u(n / 10) + seq![(n % 10 + ('0' as u8)) as u8]
    }
}

/// A sequence of digit characters with its trailing zeros dropped.
pub open spec fn trim0(s: Seq<u8>) -> Seq<u8>
    decreases s.len(),
{
    if s.len() > 0 && s.last() == '0' as u8 {
        trim0(s.drop_last())
    } else {
        s
    }
}

/// The magnitude of an integer.
pub open spec fn mag(v: int) -> nat {
    if v >= 0 {
        v as nat
    } else {
        (-v) as nat
    }
}

/// The fraction part of a balance rendered from its ten-thousandths: empty
/// for a whole number, otherwise a point and the fraction digits with
/// trailing zeros trimmed.
pub open spec fn frac_str(f: nat) -> Seq<u8> {
    if f == 0 {
        Seq::<u8>::empty()
    } else {
        seq!['.' as u8] + trim0(
            seq![
                (f / 1000 % 10 + ('0' as u8)) as u8,
                (f / 100 % 10 + ('0' as u8)) as u8,
                (f / 10 % 10 + ('0' as u8)) as u8,
                (f % 10 + ('0' as u8)) as u8,
            ],
        )
    }
}

/// A balance in ten-thousandths of a unit rendered as fixed-point decimal
/// text: optional minus sign, whole part, and trimmed fraction.
pub open spec fn balance_str(v: int) -> Seq<u8> {
    (if v < 0 {
        seq!['-' as u8]
    } else {
        Seq::<u8>::empty()
    }) + dec_u(mag(v) / 10000) + frac_str(mag(v) % 10000)
}

/// The lock flag rendered as text.
pub open spec fn bool_str(b: bool) -> Seq<u8> {
    if b {
        seq!['t' as u8, 'r' as u8, 'u' as u8, 'e' as u8]
    } else {
        seq!['f' as u8, 'a' as u8, 'l' as u8, 's' as u8, 'e' as u8]
    }
}

/// The header line of the report.
pub open spec fn header_bytes() -> Seq<u8> {
    seq![
        'c' as u8, 'l' as u8, 'i' as u8, 'e' as u8, 'n' as u8, 't' as u8, ',' as u8,
        'a' as u8, 'v' as u8, 'a' as u8, 'i' as u8, 'l' as u8, 'a' as u8, 'b' as u8,
        'l' as u8, 'e' as u8, ',' as u8, 'h' as u8, 'e' as u8, 'l' as u8, 'd' as u8,
        ',' as u8, 't' as u8, 'o' as u8, 't' as u8, 'a' as u8, 'l' as u8, ',' as u8,
        'l' as u8, 'o' as u8, 'c' as u8, 'k' as u8, 'e' as u8, 'd' as u8, '\n' as u8,
    ]
}

/// One report row: the client id, its three balances, and the lock flag,
/// comma-separated and newline-terminated.
pub open spec fn row_str(client: AccountId, v: AccountView) -> Seq<u8> {
    dec_u(client as nat) + seq![',' as u8] + balance_str(v.available) + seq![',' as u8]
        + balance_str(v.held) + seq![',' as u8] + balance_str(v.available + v.held)
        + seq![',' as u8] + bool_str(v.locked) + seq!['\n' as u8]
}

/// Appends the decimal digits of `n`.
fn push_u_digits(n: u128, out: &mut Vec<u8>)
    ensures
        final(out)@ == old(out)@ + dec_u(n as nat),
    decreases n,
{
    if n >= 10 {
        push_u_digits(n / 10, out);
    }
    out.push((n % 10) as u8 + ('0' as u8));
    proof {
        assert(out@ =~= old(out)@ + dec_u(n as nat));
    }
}

/// Appends the fixed-point rendering of a balance in ten-thousandths.
fn push_balance(v: i128, out: &mut Vec<u8>)
    ensures
        final(out)@ == old(out)@ + balance_str(v as int),
{
    let m: u128 = if v >= 0 {
        v as u128
    } else {
        out.push('-' as u8);
        ((-(v + 1)) as u128) + 1
    };
    proof {
        assert(m as nat == mag(v as int));
    }
    push_u_digits(m / 10000, out);
    let f: u128 = m % 10000;
    if f > 0 {
        out.push('.' as u8);
        let mut digits: Vec<u8> = Vec::new();
        digits.push((f / 1000 % 10) as u8 + ('0' as u8));
        digits.push((f / 100 % 10) as u8 + ('0' as u8));
        digits.push((f / 10 % 10) as u8 + ('0' as u8));
        digits.push((f % 10) as u8 + ('0' as u8));
        proof {
            assert(digits@ =~= seq![
                (f as nat / 1000 % 10 + ('0' as u8)) as u8,
                (f as nat / 100 % 10 + ('0' as u8)) as u8,
                (f as nat / 10 % 10 + ('0' as u8)) as u8,
                (f as nat % 10 + ('0' as u8)) as u8,
            ]);
        }
        while digits.len() > 0 && digits[digits.len() - 1] == '0' as u8
            invariant
                trim0(digits@) == trim0(
                    seq![
                        (f as nat / 1000 % 10 + ('0' as u8)) as u8,
                        (f as nat / 100 % 10 + ('0' as u8)) as u8,
                        (f as nat / 10 % 10 + ('0' as u8)) as u8,
                        (f as nat % 10 + ('0' as u8)) as u8,
                    ],
                ),
            decreases digits@.len(),
        {
            digits.pop();
        }
        proof {
            assert(digits@ == trim0(digits@));
        }
        out.append(&mut digits);
    }
    proof {
        assert(out@ =~= old(out)@ + balance_str(v as int));
    }
}

/// Appends the textual lock flag.
fn push_bool(b: bool, out: &mut Vec<u8>)
    ensures
        final(out)@ == old(out)@ + bool_str(b),
{
    if b {
        out.push('t' as u8);
        out.push('r' as u8);
        out.push('u' as u8);
        out.push('e' as u8);
    } else {
        out.push('f' as u8);
        out.push('a' as u8);
        out.push('l' as u8);
        out.push('s' as u8);
        out.push('e' as u8);
    }
    proof {
        assert(out@ =~= old(out)@ + bool_str(b));
    }
}

/// Appends the header line of the report.
pub fn push_header(out: &mut Vec<u8>)
    ensures
        final(out)@ == old(out)@ + header_bytes(),
{
    out.push('c' as u8);
    out.push('l' as u8);
    out.push('i' as u8);
    out.push('e' as u8);
    out.push('n' as u8);
    out.push('t' as u8);
    out.push(',' as u8);
    out.push('a' as u8);
    out.push('v' as u8);
    out.push('a' as u8);
    out.push('i' as u8);
    out.push('l' as u8);
    out.push('a' as u8);
    out.push('b' as u8);
    out.push('l' as u8);
    out.push('e' as u8);
    out.push(',' as u8);
    out.push('h' as u8);
    out.push('e' as u8);
    out.push('l' as u8);
    out.push('d' as u8);
    out.push(',' as u8);
    out.push('t' as u8);
    out.push('o' as u8);
    out.push('t' as u8);
    out.push('a' as u8);
    out.push('l' as u8);
    out.push(',' as u8);
    out.push('l' as u8);
    out.push('o' as u8);
    out.push('c' as u8);
    out.push('k' as u8);
    out.push('e' as u8);
    out.push('d' as u8);
    out.push('\n' as u8);
    proof {
        assert(out@ =~= old(out)@ + header_bytes());
    }
}

/// Appends one account's report row.
pub fn push_row(client: AccountId, account: &Account, out: &mut Vec<u8>)
    requires
        account_inv(account@),
    ensures
        final(out)@ == old(out)@ + row_str(client, account@),
{
    proof {
        lemma_disputed_sum_nonneg(account@.history);
    }
    push_u_digits(client as u128, out);
    out.push(',' as u8);
    push_balance(account.available, out);
    out.push(',' as u8);
    push_balance(account.held, out);
    out.push(',' as u8);
    let total = account.total();
    push_balance(total, out);
    out.push(',' as u8);
    push_bool(account.locked, out);
    out.push('\n' as u8);
    proof {
        assert(out@ =~= old(out)@ + row_str(client, account@));
    }
}

} // verus!
