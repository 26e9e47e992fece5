//! Parsing of the delimited-text transaction format.
//!
//! The input is a header line naming the fields `type, client, tx, amount`,
//! then one record per line: a transaction kind, a client identifier, a
//! transaction identifier, and an optional fixed-point amount with up to
//! four fraction digits. Fields are separated by commas and may carry
//! leading or trailing blanks; lines may end in a carriage return, and
//! empty lines are skipped. A structurally malformed line stops the run
//! with an error, while well-formed records that break a business rule are
//! absorbed silently by the account rules.

use crate::account::AccountView;
use crate::ledger::Accounts;
use crate::ledger::consume_model;
use crate::ledger::ledger_inv;
use crate::transaction::AccountId;
use crate::transaction::Amount;
use crate::transaction::Transaction;
use crate::transaction::TransactionType;
use vstd::prelude::*;

verus! {

/// Why an input was rejected as structurally malformed.
#[derive(Clone, Copy, PartialEq, Eq, Structural, Debug)]
pub enum ParseError {
    /// The first non-empty line is not the expected header.
    BadHeader,
    /// A record does not have exactly four fields.
    MissingField,
    /// The kind field names no known transaction kind.
    UnknownType,
    /// The client field is not a number in range.
    BadClient,
    /// The transaction id field is not a number in range.
    BadTxId,
    /// The amount field is not a fixed-point number in range.
    BadAmount,
}

/// The largest whole-unit part an amount can carry and still fit the
/// `u64` count of ten-thousandths.
pub const AMOUNT_WHOLE_MAX: u64 = 1844674407370954;

/// A field-separating or line-ending blank byte.
pub open spec fn is_space(b: u8) -> bool {
    b == ' ' as u8 || b == '\t' as u8 || b == '\r' as u8
}

/// An ASCII decimal digit.
pub open spec fn is_digit(b: u8) -> bool {
    '0' as u8 <= b <= '9' as u8
}

/// Whether every byte of the sequence is a decimal digit.
pub open spec fn all_digits(s: Seq<u8>) -> bool {
    forall|i: int| 0 <= i < s.len() ==> is_digit(#[trigger] s[i])
}

/// The number written by a sequence of decimal digits.
pub open spec fn digits_val(s: Seq<u8>) -> nat
    decreases s.len(),
{
    if s.len() == 0 {
        0
    } else {
        digits_val(s.drop_last()) * 10 + (s.last() - '0' as u8) as nat
    }
}

/// Ten to the given power.
pub open spec fn pow10(n: nat) -> nat
    decreases n,
{
    if n == 0 {
        1
    } else {
        10 * pow10((n - 1) as nat)
    }
}

/// A nonempty all-digit sequence read as a number, when that number is
/// within the given bound.
pub open spec fn uint_spec(s: Seq<u8>, max: nat) -> Option<nat> {
    if s.len() > 0 && all_digits(s) && digits_val(s) <= max {
        Some(digits_val(s))
    } else {
        None
    }
}

/// The sequence with leading blanks dropped.
pub open spec fn trim_front(s: Seq<u8>) -> Seq<u8>
    decreases s.len(),
{
    if s.len() > 0 && is_space(s[0]) {
        trim_front(s.drop_first())
    } else {
        s
    }
}

/// The sequence with trailing blanks dropped.
pub open spec fn trim_back(s: Seq<u8>) -> Seq<u8>
    decreases s.len(),
{
    if s.len() > 0 && is_space(s.last()) {
        trim_back(s.drop_last())
    } else {
        s
    }
}

/// The sequence with blanks dropped at both ends.
pub open spec fn trim_spec(s: Seq<u8>) -> Seq<u8> {
    trim_back(trim_front(s))
}

/// Splitting from the front with the bytes of an unfinished field carried
/// along: every separator ends a field, and the end of input ends the last
/// field, so a trailing separator yields a final empty field.
pub open spec fn split_acc(s: Seq<u8>, sep: u8, cur: Seq<u8>) -> Seq<Seq<u8>>
    decreases s.len(),
{
    if s.len() == 0 {
        seq![cur]
    } else if s[0] == sep {
        seq![cur] + split_acc(s.drop_first(), sep, Seq::<u8>::empty())
    } else {
        split_acc(s.drop_first(), sep, cur.push(s[0]))
    }
}

/// The fields of a sequence split at every occurrence of the separator.
pub open spec fn split_sep(s: Seq<u8>, sep: u8) -> Seq<Seq<u8>> {
    split_acc(s, sep, Seq::<u8>::empty())
}

/// The byte views of a sequence of byte vectors.
pub open spec fn views_of(vs: Seq<Vec<u8>>) -> Seq<Seq<u8>> {
    vs.map_values(|v: Vec<u8>| v@)
}

/// A line with one trailing carriage return dropped.
pub open spec fn strip_cr(l: Seq<u8>) -> Seq<u8> {
    if l.len() > 0 && l.last() == '\r' as u8 {
        l.drop_last()
    } else {
        l
    }
}

/// The text of the deposit kind.
pub open spec fn tok_deposit() -> Seq<u8> {
    seq!['d' as u8, 'e' as u8, 'p' as u8, 'o' as u8, 's' as u8, 'i' as u8, 't' as u8]
}

/// The text of the withdrawal kind.
pub open spec fn tok_withdrawal() -> Seq<u8> {
    seq![
        'w' as u8, 'i' as u8, 't' as u8, 'h' as u8, 'd' as u8, 'r' as u8, 'a' as u8,
        'w' as u8, 'a' as u8, 'l' as u8,
    ]
}

/// The text of the dispute kind.
pub open spec fn tok_dispute() -> Seq<u8> {
    seq!['d' as u8, 'i' as u8, 's' as u8, 'p' as u8, 'u' as u8, 't' as u8, 'e' as u8]
}

/// The text of the resolve kind.
pub open spec fn tok_resolve() -> Seq<u8> {
    seq!['r' as u8, 'e' as u8, 's' as u8, 'o' as u8, 'l' as u8, 'v' as u8, 'e' as u8]
}

/// The text of the chargeback kind.
pub open spec fn tok_chargeback() -> Seq<u8> {
    seq![
        'c' as u8, 'h' as u8, 'a' as u8, 'r' as u8, 'g' as u8, 'e' as u8, 'b' as u8,
        'a' as u8, 'c' as u8, 'k' as u8,
    ]
}

/// The header name of the kind column.
pub open spec fn tok_type() -> Seq<u8> {
    seq!['t' as u8, 'y' as u8, 'p' as u8, 'e' as u8]
}

/// The header name of the client column.
pub open spec fn tok_client() -> Seq<u8> {
    seq!['c' as u8, 'l' as u8, 'i' as u8, 'e' as u8, 'n' as u8, 't' as u8]
}

/// The header name of the transaction id column.
pub open spec fn tok_tx() -> Seq<u8> {
    seq!['t' as u8, 'x' as u8]
}

/// The header name of the amount column.
pub open spec fn tok_amount() -> Seq<u8> {
    seq!['a' as u8, 'm' as u8, 'o' as u8, 'u' as u8, 'n' as u8, 't' as u8]
}

/// The transaction kind named by a trimmed field, if any.
pub open spec fn type_spec(s: Seq<u8>) -> Option<TransactionType> {
    if s == tok_deposit() {
        Some(TransactionType::Deposit)
    } else if s == tok_withdrawal() {
        Some(TransactionType::Withdrawal)
    } else if s == tok_dispute() {
        Some(TransactionType::Dispute)
    } else if s == tok_resolve() {
        Some(TransactionType::Resolve)
    } else if s == tok_chargeback() {
        Some(TransactionType::Chargeback)
    } else {
        None
    }
}

/// A trimmed amount field read as a count of ten-thousandths: a nonempty
/// digit run, optionally followed by a point and one to four fraction
/// digits, the whole small enough to fit the count in a `u64`.
pub open spec fn amount_spec(s: Seq<u8>) -> Option<nat> {
    let parts = split_sep(s, '.' as u8);
    if parts.len() == 1 {
        match uint_spec(parts[0], AMOUNT_WHOLE_MAX as nat) {
            Some(w) => Some(w * 10000),
            None => None,
        }
    } else if parts.len() == 2 {
        match uint_spec(parts[0], AMOUNT_WHOLE_MAX as nat) {
            Some(w) => {
                if 1 <= parts[1].len() <= 4 && all_digits(parts[1]) {
                    Some(w * 10000 + digits_val(parts[1]) * pow10((4 - parts[1].len()) as nat))
                } else {
                    None
                }
            },
            None => None,
        }
    } else {
        None
    }
}

/// Whether a line is the expected header: the four column names in order,
/// each tolerating surrounding blanks.
pub open spec fn header_spec(line: Seq<u8>) -> bool {
    let fields = split_sep(line, ',' as u8);
    &&& fields.len() == 4
    &&& trim_spec(fields[0]) == tok_type()
    &&& trim_spec(fields[1]) == tok_client()
    &&& trim_spec(fields[2]) == tok_tx()
    &&& trim_spec(fields[3]) == tok_amount()
}

/// A record line read as a transaction, or the reason it is malformed:
/// exactly four fields, a known kind, a client id fitting sixteen bits, a
/// transaction id fitting thirty-two, and an amount that is either absent
/// or a fixed-point number in range.
pub open spec fn record_spec(line: Seq<u8>) -> Result<Transaction, ParseError> {
    let fields = split_sep(line, ',' as u8);
    if fields.len() != 4 {
        Err(ParseError::MissingField)
    } else {
        match type_spec(trim_spec(fields[0])) {
            None => Err(ParseError::UnknownType),
            Some(ty) => match uint_spec(trim_spec(fields[1]), u16::MAX as nat) {
                None => Err(ParseError::BadClient),
                Some(client) => match uint_spec(trim_spec(fields[2]), u32::MAX as nat) {
                    None => Err(ParseError::BadTxId),
                    Some(id) => {
                        if trim_spec(fields[3]).len() == 0 {
                            Ok(
                                Transaction {
                                    ty,
                                    client: client as AccountId,
                                    id: id as u32,
                                    amount: None,
                                },
                            )
                        } else {
                            match amount_spec(trim_spec(fields[3])) {
                                Some(u) => Ok(
                                    Transaction {
                                        ty,
                                        client: client as AccountId,
                                        id: id as u32,
                                        amount: Some(Amount { units: u as u64 }),
                                    },
                                ),
                                None => Err(ParseError::BadAmount),
                            }
                        }
                    },
                },
            },
        }
    }
}

/// Folding record lines into the ledger after the header: empty lines are
/// skipped, each well-formed record is consumed in order, and the first
/// malformed line stops the run with its error, keeping what was consumed
/// before it.
pub open spec fn consume_lines(
    led: Seq<(AccountId, AccountView)>,
    lines: Seq<Seq<u8>>,
) -> (Seq<(AccountId, AccountView)>, Result<(), ParseError>)
    decreases lines.len(),
{
    if lines.len() == 0 {
        (led, Ok(()))
    } else {
        let l = strip_cr(lines[0]);
        if l.len() == 0 {
            consume_lines(led, lines.drop_first())
        } else {
            match record_spec(l) {
                Ok(t) => consume_lines(consume_model(led, t), lines.drop_first()),
                Err(e) => (led, Err(e)),
            }
        }
    }
}

/// Processing a whole input: the first non-empty line must be the header,
/// and the rest are folded in by [`consume_lines`]. An input with no
/// non-empty lines leaves the ledger alone and succeeds.
pub open spec fn process_model(
    led: Seq<(AccountId, AccountView)>,
    lines: Seq<Seq<u8>>,
) -> (Seq<(AccountId, AccountView)>, Result<(), ParseError>)
    decreases lines.len(),
{
    if lines.len() == 0 {
        (led, Ok(()))
    } else {
        let l = strip_cr(lines[0]);
        if l.len() == 0 {
            process_model(led, lines.drop_first())
        } else if header_spec(l) {
            consume_lines(led, lines.drop_first())
        } else {
            (led, Err(ParseError::BadHeader))
        }
    }
}

/// A longer digit run never writes a smaller number.
proof fn lemma_digits_val_mono(s: Seq<u8>, i: int)
    requires
        0 <= i <= s.len(),
    ensures
        digits_val(s) >= digits_val(s.take(i)),
    decreases s.len() - i,
{
    if i == s.len() {
        assert(s.take(i) =~= s);
    } else {
        assert(s.take(i + 1).drop_last() =~= s.take(i));
        lemma_digits_val_mono(s, i + 1);
    }
}

/// A digit run of a given length stays below ten to that length.
proof fn lemma_digits_val_bound(s: Seq<u8>)
    requires
        all_digits(s),
    ensures
        digits_val(s) < pow10(s.len() as nat),
    decreases s.len(),
{
    if s.len() > 0 {
        assert(is_digit(s[s.len() - 1]));
        lemma_digits_val_bound(s.drop_last());
    }
}

/// With the leading blanks counted, dropping them is dropping that prefix.
proof fn lemma_trim_front(s: Seq<u8>, a: int)
    requires
        0 <= a <= s.len(),
        forall|j: int| 0 <= j < a ==> is_space(#[trigger] s[j]),
        a < s.len() ==> !is_space(s[a]),
    ensures
        trim_front(s) == s.skip(a),
    decreases a,
{
    if a == 0 {
        assert(s.skip(0) =~= s);
    } else {
        assert(is_space(s[0]));
        lemma_trim_front(s.drop_first(), a - 1);
        assert(s.drop_first().skip(a - 1) =~= s.skip(a));
    }
}

/// With the trailing blanks counted, dropping them is keeping that prefix.
proof fn lemma_trim_back(s: Seq<u8>, b: int)
    requires
        0 <= b <= s.len(),
        forall|j: int| b <= j < s.len() ==> is_space(#[trigger] s[j]),
        b > 0 ==> !is_space(s[b - 1]),
    ensures
        trim_back(s) == s.take(b),
    decreases s.len(),
{
    if b == s.len() {
        assert(s.take(b) =~= s);
    } else {
        assert(is_space(s.last()));
        assert(s.drop_last() =~= s.take(s.len() - 1));
        lemma_trim_back(s.drop_last(), b);
        assert(s.drop_last().take(b) =~= s.take(b));
    }
}

/// Drops blanks at both ends of a field.
fn trim(s: &[u8]) -> (r: Vec<u8>)
    ensures
        r@ == trim_spec(s@),
{
    let mut a: usize = 0;
    while a < s.len() && (s[a] == ' ' as u8 || s[a] == '\t' as u8 || s[a] == '\r' as u8)
        invariant
            0 <= a <= s@.len(),
            forall|j: int| 0 <= j < a ==> is_space(#[trigger] s@[j]),
        decreases s@.len() - a,
    {
        a = a + 1;
    }
    let mut b: usize = s.len();
    while b > a && (s[b - 1] == ' ' as u8 || s[b - 1] == '\t' as u8 || s[b - 1] == '\r' as u8)
        invariant
            a <= b <= s@.len(),
            forall|j: int| b <= j < s@.len() ==> is_space(#[trigger] s@[j]),
        decreases b,
    {
        b = b - 1;
    }
    proof {
        lemma_trim_front(s@, a as int);
        assert forall|j: int| b - a <= j < s@.skip(a as int).len() implies is_space(
            #[trigger] s@.skip(a as int)[j],
        ) by {
            assert(s@.skip(a as int)[j] == s@[j + a]);
        }
        lemma_trim_back(s@.skip(a as int), b - a);
        assert(s@.skip(a as int).take(b - a) =~= s@.subrange(a as int, b as int));
    }
    let mut r: Vec<u8> = Vec::new();
    let mut j: usize = a;
    while j < b
        invariant
            a <= j <= b <= s@.len(),
            r@ == s@.subrange(a as int, j as int),
        decreases b - j,
    {
        r.push(s[j]);
        proof {
            assert(r@ =~= s@.subrange(a as int, j as int + 1));
        }
        j = j + 1;
    }
    r
}

/// Splits a byte slice at every occurrence of the separator.
fn split_sep_exec(s: &[u8], sep: u8) -> (r: Vec<Vec<u8>>)
    ensures
        views_of(r@) == split_sep(s@, sep),
{
    let mut parts: Vec<Vec<u8>> = Vec::new();
    let mut cur: Vec<u8> = Vec::new();
    let mut i: usize = 0;
    proof {
        assert(s@.skip(0) =~= s@);
        assert(views_of(parts@) =~= Seq::<Seq<u8>>::empty());
        assert(views_of(parts@) + split_acc(s@.skip(0), sep, cur@) =~= split_sep(s@, sep));
    }
    while i < s.len()
        invariant
            0 <= i <= s@.len(),
            split_sep(s@, sep) == views_of(parts@) + split_acc(s@.skip(i as int), sep, cur@),
        decreases s@.len() - i,
    {
        proof {
            assert(s@.skip(i as int)[0] == s@[i as int]);
            assert(s@.skip(i as int).drop_first() =~= s@.skip(i as int + 1));
        }
        if s[i] == sep {
            let ghost old_parts = parts@;
            let ghost old_cur = cur@;
            parts.push(cur);
            cur = Vec::new();
            proof {
                assert(views_of(parts@) =~= views_of(old_parts) + seq![old_cur]);
                assert(views_of(parts@) + split_acc(s@.skip(i as int + 1), sep, cur@)
                    =~= views_of(old_parts) + split_acc(s@.skip(i as int), sep, old_cur));
            }
        } else {
            cur.push(s[i]);
        }
        i = i + 1;
    }
    proof {
        assert(s@.skip(s@.len() as int) =~= Seq::<u8>::empty());
    }
    let ghost old_parts = parts@;
    let ghost old_cur = cur@;
    parts.push(cur);
    proof {
        assert(views_of(parts@) =~= views_of(old_parts) + seq![old_cur]);
        assert(views_of(parts@) =~= split_sep(s@, sep));
    }
    parts
}

/// Reads a nonempty digit run as a number no larger than the bound.
fn parse_uint(s: &[u8], max: u64) -> (r: Option<u64>)
    ensures
        match r {
            Some(v) => uint_spec(s@, max as nat) == Some(v as nat),
            None => uint_spec(s@, max as nat) is None,
        },
{
    if s.len() == 0 {
        return None;
    }
    let mut acc: u64 = 0;
    let mut i: usize = 0;
    proof {
        assert(s@.take(0) =~= Seq::<u8>::empty());
    }
    while i < s.len()
        invariant
            0 <= i <= s@.len(),
            all_digits(s@.take(i as int)),
            acc as nat == digits_val(s@.take(i as int)),
            acc <= max,
        decreases s@.len() - i,
    {
        let c = s[i];
        if c < '0' as u8 || c > '9' as u8 {
            proof {
                assert(!is_digit(s@[i as int]));
            }
            return None;
        }
        let d: u8 = c - '0' as u8;
        proof {
            assert(s@.take(i as int + 1).drop_last() =~= s@.take(i as int));
            assert(s@.take(i as int + 1).last() == s@[i as int]);
        }
        let big: u128 = (acc as u128) * 10 + (d as u128);
        if big > max as u128 {
            proof {
                lemma_digits_val_mono(s@, i as int + 1);
            }
            return None;
        }
        acc = big as u64;
        i = i + 1;
    }
    proof {
        assert(s@.take(s@.len() as int) =~= s@);
    }
    Some(acc)
}

/// Whether two byte slices hold the same bytes.
fn bytes_eq(s: &[u8], t: &[u8]) -> (r: bool)
    ensures
        r == (s@ == t@),
{
    if s.len() != t.len() {
        proof {
            if s@ == t@ {
                assert(s@.len() == t@.len());
            }
        }
        return false;
    }
    let mut i: usize = 0;
    while i < s.len()
        invariant
            0 <= i <= s@.len(),
            s@.len() == t@.len(),
            forall|j: int| 0 <= j < i ==> s@[j] == t@[j],
        decreases s@.len() - i,
    {
        if s[i] != t[i] {
            return false;
        }
        i = i + 1;
    }
    proof {
        assert(s@ =~= t@);
    }
    true
}

/// The bytes of the deposit kind, as a value.
fn tok_deposit_vec() -> (r: Vec<u8>)
    ensures
        r@ == tok_deposit(),
{
    let mut v: Vec<u8> = Vec::new();
    v.push('d' as u8);
    v.push('e' as u8);
    v.push('p' as u8);
    v.push('o' as u8);
    v.push('s' as u8);
    v.push('i' as u8);
    v.push('t' as u8);
    proof {
        assert(v@ =~= tok_deposit());
    }
    v
}

/// The bytes of the withdrawal kind, as a value.
fn tok_withdrawal_vec() -> (r: Vec<u8>)
    ensures
        r@ == tok_withdrawal(),
{
    let mut v: Vec<u8> = Vec::new();
    v.push('w' as u8);
    v.push('i' as u8);
    v.push('t' as u8);
    v.push('h' as u8);
    v.push('d' as u8);
    v.push('r' as u8);
    v.push('a' as u8);
    v.push('w' as u8);
    v.push('a' as u8);
    v.push('l' as u8);
    proof {
        assert(v@ =~= tok_withdrawal());
    }
    v
}

/// The bytes of the dispute kind, as a value.
fn tok_dispute_vec() -> (r: Vec<u8>)
    ensures
        r@ == tok_dispute(),
{
    let mut v: Vec<u8> = Vec::new();
    v.push('d' as u8);
    v.push('i' as u8);
    v.push('s' as u8);
    v.push('p' as u8);
    v.push('u' as u8);
    v.push('t' as u8);
    v.push('e' as u8);
    proof {
        assert(v@ =~= tok_dispute());
    }
    v
}

/// The bytes of the resolve kind, as a value.
fn tok_resolve_vec() -> (r: Vec<u8>)
    ensures
        r@ == tok_resolve(),
{
    let mut v: Vec<u8> = Vec::new();
    v.push('r' as u8);
    v.push('e' as u8);
    v.push('s' as u8);
    v.push('o' as u8);
    v.push('l' as u8);
    v.push('v' as u8);
    v.push('e' as u8);
    proof {
        assert(v@ =~= tok_resolve());
    }
    v
}

/// The bytes of the chargeback kind, as a value.
fn tok_chargeback_vec() -> (r: Vec<u8>)
    ensures
        r@ == tok_chargeback(),
{
    let mut v: Vec<u8> = Vec::new();
    v.push('c' as u8);
    v.push('h' as u8);
    v.push('a' as u8);
    v.push('r' as u8);
    v.push('g' as u8);
    v.push('e' as u8);
    v.push('b' as u8);
    v.push('a' as u8);
    v.push('c' as u8);
    v.push('k' as u8);
    proof {
        assert(v@ =~= tok_chargeback());
    }
    v
}

/// The bytes of the kind column name, as a value.
fn tok_type_vec() -> (r: Vec<u8>)
    ensures
        r@ == tok_type(),
{
    let mut v: Vec<u8> = Vec::new();
    v.push('t' as u8);
    v.push('y' as u8);
    v.push('p' as u8);
    v.push('e' as u8);
    proof {
        assert(v@ =~= tok_type());
    }
    v
}

/// The bytes of the client column name, as a value.
fn tok_client_vec() -> (r: Vec<u8>)
    ensures
        r@ == tok_client(),
{
    let mut v: Vec<u8> = Vec::new();
    v.push('c' as u8);
    v.push('l' as u8);
    v.push('i' as u8);
    v.push('e' as u8);
    v.push('n' as u8);
    v.push('t' as u8);
    proof {
        assert(v@ =~= tok_client());
    }
    v
}

/// The bytes of the transaction id column name, as a value.
fn tok_tx_vec() -> (r: Vec<u8>)
    ensures
        r@ == tok_tx(),
{
    let mut v: Vec<u8> = Vec::new();
    v.push('t' as u8);
    v.push('x' as u8);
    proof {
        assert(v@ =~= tok_tx());
    }
    v
}

/// The bytes of the amount column name, as a value.
fn tok_amount_vec() -> (r: Vec<u8>)
    ensures
        r@ == tok_amount(),
{
    let mut v: Vec<u8> = Vec::new();
    v.push('a' as u8);
    v.push('m' as u8);
    v.push('o' as u8);
    v.push('u' as u8);
    v.push('n' as u8);
    v.push('t' as u8);
    proof {
        assert(v@ =~= tok_amount());
    }
    v
}

/// Reads a trimmed kind field as a transaction kind.
fn parse_type(s: &[u8]) -> (r: Option<TransactionType>)
    ensures
        r == type_spec(s@),
{
    if bytes_eq(s, tok_deposit_vec().as_slice()) {
        Some(TransactionType::Deposit)
    } else if bytes_eq(s, tok_withdrawal_vec().as_slice()) {
        Some(TransactionType::Withdrawal)
    } else if bytes_eq(s, tok_dispute_vec().as_slice()) {
        Some(TransactionType::Dispute)
    } else if bytes_eq(s, tok_resolve_vec().as_slice()) {
        Some(TransactionType::Resolve)
    } else if bytes_eq(s, tok_chargeback_vec().as_slice()) {
        Some(TransactionType::Chargeback)
    } else {
        None
    }
}

/// Reads a trimmed amount field as a count of ten-thousandths of a unit.
fn parse_amount(s: &[u8]) -> (r: Option<Amount>)
    ensures
        match r {
            Some(a) => amount_spec(s@) == Some(a.units as nat),
            None => amount_spec(s@) is None,
        },
{
    let parts = split_sep_exec(s, '.' as u8);
    if parts.len() == 1 {
        proof {
            assert(views_of(parts@)[0] == parts@[0]@);
        }
        match parse_uint(parts[0].as_slice(), AMOUNT_WHOLE_MAX) {
            Some(w) => Some(Amount { units: w * 10000 }),
            None => None,
        }
    } else if parts.len() == 2 {
        proof {
            assert(views_of(parts@)[0] == parts@[0]@);
            assert(views_of(parts@)[1] == parts@[1]@);
        }
        let w = match parse_uint(parts[0].as_slice(), AMOUNT_WHOLE_MAX) {
            Some(w) => w,
            None => {
                return None;
            },
        };
        let frac = &parts[1];
        if frac.len() < 1 || frac.len() > 4 {
            return None;
        }
        let f = match parse_uint(frac.as_slice(), 9999) {
            Some(f) => f,
            None => {
                proof {
                    if all_digits(frac@) {
                        lemma_digits_val_bound(frac@);
                        reveal_with_fuel(pow10, 5);
                    }
                }
                return None;
            },
        };
        let factor: u64 = if frac.len() == 1 {
            1000
        } else if frac.len() == 2 {
            100
        } else if frac.len() == 3 {
            10
        } else {
            1
        };
        proof {
            reveal_with_fuel(pow10, 5);
            lemma_digits_val_bound(frac@);
        }
        Some(Amount { units: w * 10000 + f * factor })
    } else {
        None
    }
}

/// Checks a line against the expected header.
fn parse_header(line: &[u8]) -> (r: bool)
    ensures
        r == header_spec(line@),
{
    let fields = split_sep_exec(line, ',' as u8);
    if fields.len() != 4 {
        return false;
    }
    proof {
        assert(views_of(fields@)[0] == fields@[0]@);
        assert(views_of(fields@)[1] == fields@[1]@);
        assert(views_of(fields@)[2] == fields@[2]@);
        assert(views_of(fields@)[3] == fields@[3]@);
    }
    let f0 = trim(fields[0].as_slice());
    let f1 = trim(fields[1].as_slice());
    let f2 = trim(fields[2].as_slice());
    let f3 = trim(fields[3].as_slice());
    bytes_eq(f0.as_slice(), tok_type_vec().as_slice()) && bytes_eq(
        f1.as_slice(),
        tok_client_vec().as_slice(),
    ) && bytes_eq(f2.as_slice(), tok_tx_vec().as_slice()) && bytes_eq(
        f3.as_slice(),
        tok_amount_vec().as_slice(),
    )
}

/// Reads one record line as a transaction, or reports why it is
/// malformed.
fn parse_record(line: &[u8]) -> (r: Result<Transaction, ParseError>)
    ensures
        r == record_spec(line@),
{
    let fields = split_sep_exec(line, ',' as u8);
    if fields.len() != 4 {
        return Err(ParseError::MissingField);
    }
    proof {
        assert(views_of(fields@)[0] == fields@[0]@);
        assert(views_of(fields@)[1] == fields@[1]@);
        assert(views_of(fields@)[2] == fields@[2]@);
        assert(views_of(fields@)[3] == fields@[3]@);
    }
    let f0 = trim(fields[0].as_slice());
    let ty = match parse_type(f0.as_slice()) {
        Some(t) => t,
        None => {
            return Err(ParseError::UnknownType);
        },
    };
    let f1 = trim(fields[1].as_slice());
    let client = match parse_uint(f1.as_slice(), u16::MAX as u64) {
        Some(v) => v as u16,
        None => {
            return Err(ParseError::BadClient);
        },
    };
    let f2 = trim(fields[2].as_slice());
    let id = match parse_uint(f2.as_slice(), u32::MAX as u64) {
        Some(v) => v as u32,
        None => {
            return Err(ParseError::BadTxId);
        },
    };
    let f3 = trim(fields[3].as_slice());
    let amount = if f3.len() == 0 {
        None
    } else {
        match parse_amount(f3.as_slice()) {
            Some(a) => Some(a),
            None => {
                return Err(ParseError::BadAmount);
            },
        }
    };
    Ok(Transaction { ty, client, id, amount })
}

/// Consumes a whole delimited-text input into the ledger: the first
/// non-empty line must be the header, every further non-empty line must
/// be a well-formed record, and records are applied in order. On the
/// first malformed line the run stops with that line's error, keeping
/// everything consumed before it; the business rules themselves never
/// fail.
pub fn process(accounts: &mut Accounts, input: &[u8]) -> (r: Result<(), ParseError>)
    requires
        ledger_inv(old(accounts)@),
    ensures
        ledger_inv(final(accounts)@),
        final(accounts)@ == process_model(old(accounts)@, split_sep(input@, '\n' as u8)).0,
        r == process_model(old(accounts)@, split_sep(input@, '\n' as u8)).1,
{
    let lines = split_sep_exec(input, '\n' as u8);
    let ghost lines_s = split_sep(input@, '\n' as u8);
    let ghost target = process_model(old(accounts)@, lines_s);
    let mut i: usize = 0;
    let mut seen_header = false;
    proof {
        assert(lines_s.skip(0) =~= lines_s);
    }
    while i < lines.len()
        invariant
            0 <= i <= lines_s.len(),
            lines_s == split_sep(input@, '\n' as u8),
            target == process_model(old(accounts)@, lines_s),
            views_of(lines@) == lines_s,
            lines@.len() == lines_s.len(),
            ledger_inv(accounts@),
            !seen_header ==> accounts@ == old(accounts)@ && target == process_model(
                accounts@,
                lines_s.skip(i as int),
            ),
            seen_header ==> target == consume_lines(accounts@, lines_s.skip(i as int)),
        decreases lines_s.len() - i,
    {
        proof {
            assert(views_of(lines@)[i as int] == lines@[i as int]@);
            assert(lines_s.skip(i as int)[0] == lines_s[i as int]);
            assert(lines_s.skip(i as int).drop_first() =~= lines_s.skip(i as int + 1));
        }
        let mut line = lines[i].clone();
        proof {
            assert(line@ =~= lines@[i as int]@);
        }
        if line.len() > 0 && line[line.len() - 1] == '\r' as u8 {
            line.pop();
        }
        proof {
            assert(line@ == strip_cr(lines_s[i as int]));
        }
        if line.len() == 0 {
        } else if !seen_header {
            if parse_header(line.as_slice()) {
                seen_header = true;
            } else {
                proof {
                    assert(process_model(accounts@, lines_s.skip(i as int)) == (
                        accounts@,
                        Err::<(), ParseError>(ParseError::BadHeader),
                    ));
                }
                return Err(ParseError::BadHeader);
            }
        } else {
            match parse_record(line.as_slice()) {
                Ok(t) => {
                    accounts.consume(t);
                },
                Err(e) => {
                    proof {
                        assert(consume_lines(accounts@, lines_s.skip(i as int)) == (
                            accounts@,
                            Err::<(), ParseError>(e),
                        ));
                    }
                    return Err(e);
                },
            }
        }
        i = i + 1;
    }
    proof {
        assert(lines_s.skip(lines_s.len() as int) =~= Seq::<Seq<u8>>::empty());
    }
    Ok(())
}

} // verus!
