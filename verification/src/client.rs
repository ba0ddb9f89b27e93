//! The decisions of the interactive client: reading a command line,
//! addresses and amounts, keeping the queue of pending transactions, and
//! noticing that the chain has grown.
use vstd::prelude::*;
use vstd::string::{StrSliceExecFns, StringExecFns};
use vstd::utf8::encode_utf8;

use crate::block::transaction::Transaction;
use crate::block::{zeros, Address};
use crate::network::protocol::hex2;

verus! {

// ---------------------------------------------------------------------------
// Outside calls
// ---------------------------------------------------------------------------
/// Whether a character has the Unicode `White_Space` property: tab, line
/// feed, vertical tab, form feed, carriage return, space, next line,
/// no-break space, Ogham space mark, the spaces from en quad to hair space,
/// line separator, paragraph separator, narrow no-break space, medium
/// mathematical space and ideographic space.
pub open spec fn spec_is_whitespace(c: char) -> bool {
    let u = c as u32;
    ||| 0x09 <= u <= 0x0d
    ||| u == 0x20
    ||| u == 0x85
    ||| u == 0xa0
    ||| u == 0x1680
    ||| 0x2000 <= u <= 0x200a
    ||| u == 0x2028
    ||| u == 0x2029
    ||| u == 0x202f
    ||| u == 0x205f
    ||| u == 0x3000
}

/// Calls `char::is_whitespace`, which answers whether the character has the
/// Unicode `White_Space` property, the set that `spec_is_whitespace` lists.
#[verifier::external_body]
fn is_whitespace(c: char) -> (r: bool)
    ensures
        r == spec_is_whitespace(c),
{
    c.is_whitespace()
}

/// The error type of `hex::decode`.
#[verifier::external_type_specification]
#[verifier::external_body]
pub struct ExFromHexError(hex::FromHexError);

/// The value of one hexadecimal digit, either case.
pub open spec fn hex_digit_value(c: u8) -> Option<u8> {
    if 48 <= c <= 57 {
        Some((c - 48) as u8)
    } else if 97 <= c <= 102 {
        Some((c - 87) as u8)
    } else if 65 <= c <= 70 {
        Some((c - 55) as u8)
    } else {
        None
    }
}

/// An even number of hexadecimal digits.
pub open spec fn hex_valid(d: Seq<u8>) -> bool {
    &&& d.len() % 2 == 0
    &&& forall|i: int| 0 <= i < d.len() ==> #[trigger] hex_digit_value(d[i]) is Some
}

/// The bytes that pairs of hexadecimal digits stand for, high digit first.
pub open spec fn hex_bytes(d: Seq<u8>) -> Seq<u8> {
    Seq::new(
        d.len() / 2,
        |i: int| (hex_digit_value(d[2 * i])->0 * 16 + hex_digit_value(d[2 * i + 1])->0) as u8,
    )
}

/// Calls `hex::decode` on `data`. As its source shows, it fails on an odd
/// number of digits or on a character that is not a hexadecimal digit, and
/// otherwise turns each pair of digits into one byte, high digit first.
#[verifier::external_body]
fn hex_decode(data: &[u8]) -> (r: Result<Vec<u8>, hex::FromHexError>)
    ensures
        r is Ok <==> hex_valid(data@),
        r matches Ok(v) ==> v@ == hex_bytes(data@),
{
    hex::decode(data)
}

/// Lower-case hexadecimal text of bytes, two digits per byte, high digit
/// first.
pub open spec fn hex_text(bytes: Seq<u8>) -> Seq<char>
    decreases bytes.len(),
{
    if bytes.len() == 0 {
        Seq::empty()
    } else {
        hex2(bytes[0]) + hex_text(bytes.drop_first())
    }
}

/// Calls `hex::encode` on `data`. As its source shows, each byte becomes
/// two lower-case hexadecimal digits, high digit first.
#[verifier::external_body]
fn hex_encode(data: &[u8]) -> (r: String)
    ensures
        r@ == hex_text(data@),
{
    hex::encode(data)
}

/// The bytes in lower-case hexadecimal, for display.
pub fn to_hex(data: &[u8]) -> (r: String)
    ensures
        r@ == hex_text(data@),
{
    hex_encode(data)
}

// ---------------------------------------------------------------------------
// Words of a command line
// ---------------------------------------------------------------------------
/// The first position from `i` on that is not whitespace, or the end.
pub open spec fn trim_start_at(s: Seq<char>, i: int) -> int
    decreases s.len() - i,
{
    if i >= s.len() || !spec_is_whitespace(s[i]) {
        i
    } else {
        trim_start_at(s, i + 1)
    }
}

/// The end of `s.subrange(lo, hi)` once trailing whitespace is cut.
pub open spec fn trim_end_at(s: Seq<char>, lo: int, hi: int) -> int
    decreases hi - lo,
{
    if hi <= lo || !spec_is_whitespace(s[hi - 1]) {
        hi
    } else {
        trim_end_at(s, lo, hi - 1)
    }
}

/// `s` without leading and trailing whitespace.
pub open spec fn spec_trim(s: Seq<char>) -> Seq<char> {
    let lo = trim_start_at(s, 0);
    s.subrange(lo, trim_end_at(s, lo, s.len() as int))
}

/// The position of the first space in `s` from `i` on.
pub open spec fn find_space_from(s: Seq<char>, i: int) -> Option<int>
    decreases s.len() - i,
{
    if i < 0 || i >= s.len() {
        None
    } else if s[i] == ' ' {
        Some(i)
    } else {
        find_space_from(s, i + 1)
    }
}

/// `s` split at its first two spaces: one, two or three parts, the last of
/// which keeps any further spaces.
pub open spec fn spec_splitn3(s: Seq<char>) -> Seq<Seq<char>> {
    match find_space_from(s, 0) {
        None => seq![s],
        Some(i) => match find_space_from(s, i + 1) {
            None => seq![s.subrange(0, i), s.subrange(i + 1, s.len() as int)],
            Some(j) => seq![
                s.subrange(0, i),
                s.subrange(i + 1, j),
                s.subrange(j + 1, s.len() as int),
            ],
        },
    }
}

/// The words of a command line: the trimmed line split at its first two
/// spaces.
pub open spec fn spec_words(line: Seq<char>) -> Seq<Seq<char>> {
    spec_splitn3(spec_trim(line))
}

/// The bounds, in characters, of `s` without leading and trailing whitespace.
fn trim_bounds(s: &str) -> (r: (usize, usize))
    ensures
        r.0 == trim_start_at(s@, 0),
        r.1 == trim_end_at(s@, r.0 as int, s@.len() as int),
        r.0 <= r.1 <= s@.len(),
{
    let n = s.unicode_len();
    let mut lo: usize = 0;
    while lo < n && is_whitespace(s.get_char(lo))
        invariant
            lo <= n,
            n == s@.len(),
            trim_start_at(s@, 0) == trim_start_at(s@, lo as int),
        decreases n - lo,
    {
        lo = lo + 1;
    }
    let mut hi: usize = n;
    while hi > lo && is_whitespace(s.get_char(hi - 1))
        invariant
            lo <= hi <= n,
            n == s@.len(),
            trim_start_at(s@, 0) == lo,
            trim_end_at(s@, lo as int, n as int) == trim_end_at(s@, lo as int, hi as int),
        decreases hi - lo,
    {
        hi = hi - 1;
    }
    (lo, hi)
}

/// The position of the first space in `s` from `i` on.
fn find_space(s: &str, n: usize, i: usize) -> (r: Option<usize>)
    requires
        n == s@.len(),
        i <= n,
    ensures
        r matches Some(k) ==> find_space_from(s@, i as int) == Some(k as int) && i <= k < n,
        r is None ==> find_space_from(s@, i as int) is None,
{
    let mut k: usize = i;
    while k < n
        invariant
            i <= k <= n,
            n == s@.len(),
            find_space_from(s@, i as int) == find_space_from(s@, k as int),
        decreases n - k,
    {
        if s.get_char(k) == ' ' {
            return Some(k);
        }
        k = k + 1;
    }
    None
}

/// Whether `s` is exactly `word`.
fn is_word(s: &str, word: &str) -> (r: bool)
    ensures
        r == (s@ == word@),
{
    let n = s.unicode_len();
    if n != word.unicode_len() {
        return false;
    }
    let mut i: usize = 0;
    while i < n
        invariant
            i <= n,
            n == s@.len(),
            n == word@.len(),
            forall|j: int| 0 <= j < i ==> s@[j] == word@[j],
        decreases n - i,
    {
        if s.get_char(i) != word.get_char(i) {
            return false;
        }
        i = i + 1;
    }
    assert(s@ =~= word@);
    true
}

/// The words of a command line, as in [`spec_words`].
pub fn split_words(line: &str) -> (r: Vec<&str>)
    ensures
        r@.len() == spec_words(line@).len(),
        forall|i: int| 0 <= i < r@.len() ==> #[trigger] r@[i]@ == spec_words(line@)[i],
{
    let (lo, hi) = trim_bounds(line);
    let t = line.substring_char(lo, hi);
    assert(t@ == spec_trim(line@));
    let n = hi - lo;
    let ghost w = spec_words(line@);
    let mut parts: Vec<&str> = Vec::new();
    match find_space(t, n, 0) {
        None => {
            parts.push(t);
            assert(w == seq![t@]);
        },
        Some(i) => {
            let first = t.substring_char(0, i);
            parts.push(first);
            match find_space(t, n, i + 1) {
                None => {
                    let second = t.substring_char(i + 1, n);
                    parts.push(second);
                    assert(w == seq![first@, second@]);
                },
                Some(j) => {
                    let second = t.substring_char(i + 1, j);
                    let third = t.substring_char(j + 1, n);
                    parts.push(second);
                    parts.push(third);
                    assert(w == seq![first@, second@, third@]);
                },
            }
        },
    }
    parts
}

// ---------------------------------------------------------------------------
// Amounts
// ---------------------------------------------------------------------------
/// An ASCII decimal digit.
pub open spec fn is_digit(c: char) -> bool {
    '0' <= c <= '9'
}

/// The number that a string of decimal digits stands for.
pub open spec fn digits_value(d: Seq<char>) -> nat
    decreases d.len(),
{
    if d.len() == 0 {
        0
    } else {
        10 * digits_value(d.drop_last()) + (d.last() as nat - '0' as nat) as nat
    }
}

/// The digits of an unsigned number: the text after an optional `+`.
pub open spec fn unsigned_digits(s: Seq<char>) -> Seq<char> {
    if s.len() > 0 && s[0] == '+' {
        s.drop_first()
    } else {
        s
    }
}

/// The 128-bit amount that a text states: an optional `+`, then one or more
/// decimal digits, of a value that fits.
pub open spec fn spec_parse_u128(s: Seq<char>) -> Option<u128> {
    let d = unsigned_digits(s);
    if d.len() == 0 || !(forall|i: int| 0 <= i < d.len() ==> #[trigger] is_digit(d[i]))
        || digits_value(d) > u128::MAX {
        None
    } else {
        Some(digits_value(d) as u128)
    }
}

/// A longer run of digits never stands for a smaller number.
proof fn lemma_digits_value_prefix(d: Seq<char>, j: int, k: int)
    requires
        0 <= j <= k <= d.len(),
        forall|i: int| 0 <= i < d.len() ==> #[trigger] is_digit(d[i]),
    ensures
        digits_value(d.subrange(0, j)) <= digits_value(d.subrange(0, k)),
    decreases k - j,
{
    if j < k {
        lemma_digits_value_prefix(d, j, k - 1);
        assert(d.subrange(0, k).drop_last() =~= d.subrange(0, k - 1));
        assert(is_digit(d[k - 1]));
    }
}

/// Reads an unsigned 128-bit amount in decimal, as [`spec_parse_u128`].
pub fn parse_u128(s: &str) -> (r: Option<u128>)
    ensures
        r == spec_parse_u128(s@),
{
    let n = s.unicode_len();
    let start: usize = if n > 0 && s.get_char(0) == '+' {
        1
    } else {
        0
    };
    let ghost d = s@.subrange(start as int, n as int);
    assert(d =~= unsigned_digits(s@));
    if start == n {
        return None;
    }
    let mut i: usize = start;
    while i < n
        invariant
            start <= i <= n,
            n == s@.len(),
            d == s@.subrange(start as int, n as int),
            d == unsigned_digits(s@),
            forall|k: int| 0 <= k < i - start ==> #[trigger] is_digit(d[k]),
        decreases n - i,
    {
        let c = s.get_char(i);
        assert(d[i - start] == c);
        if !('0' <= c && c <= '9') {
            assert(!is_digit(d[i - start]));
            assert(!(forall|k: int| 0 <= k < d.len() ==> #[trigger] is_digit(d[k])));
            return None;
        }
        i = i + 1;
    }
    let mut v: u128 = 0;
    let mut i: usize = start;
    assert(d.subrange(0, 0) =~= Seq::<char>::empty());
    while i < n
        invariant
            start <= i <= n,
            n == s@.len(),
            d == s@.subrange(start as int, n as int),
            d == unsigned_digits(s@),
            forall|k: int| 0 <= k < d.len() ==> #[trigger] is_digit(d[k]),
            v == digits_value(d.subrange(0, i - start)),
        decreases n - i,
    {
        let c = s.get_char(i);
        assert(d[i - start] == c);
        assert(is_digit(d[i - start]));
        let digit: u128 = (c as u32 - '0' as u32) as u128;
        let ghost next = d.subrange(0, i + 1 - start);
        assert(next.drop_last() =~= d.subrange(0, i - start));
        assert(next.last() == c);
        assert(digits_value(next) == 10 * v + digit);
        proof {
            lemma_digits_value_prefix(d, i + 1 - start, d.len() as int);
            assert(d.subrange(0, d.len() as int) =~= d);
        }
        match v.checked_mul(10) {
            None => {
                return None;
            },
            Some(w) => match w.checked_add(digit) {
                None => {
                    return None;
                },
                Some(x) => {
                    v = x;
                },
            },
        }
        i = i + 1;
    }
    assert(d.subrange(0, n - start) =~= d);
    Some(v)
}

// ---------------------------------------------------------------------------
// Addresses
// ---------------------------------------------------------------------------
/// `s` without a leading `0x`.
pub open spec fn strip_hex_prefix(s: Seq<char>) -> Seq<char> {
    if s.len() >= 2 && s[0] == '0' && s[1] == 'x' {
        s.skip(2)
    } else {
        s
    }
}

/// The address that a text states: up to 32 bytes in hexadecimal, after an
/// optional `0x`, padded with zero bytes on the right; or the message that
/// says why the text states none.
pub open spec fn spec_parse_address(s: Seq<char>) -> Result<Seq<u8>, Seq<char>> {
    let d = encode_utf8(strip_hex_prefix(s));
    if !hex_valid(d) {
        Err("Invalid Hex string"@)
    } else if hex_bytes(d).len() > 32 {
        Err("Address too long (max 32 bytes)"@)
    } else {
        Ok(hex_bytes(d) + zeros((32 - hex_bytes(d).len()) as nat))
    }
}

/// Reads an address, as [`spec_parse_address`].
pub fn parse_address(s: &str) -> (r: Result<Address, String>)
    ensures
        match spec_parse_address(s@) {
            Ok(a) => r matches Ok(x) && x@ == a,
            Err(m) => r matches Err(e) && e@ == m,
        },
{
    let n = s.unicode_len();
    let digits: &str = if n >= 2 && s.get_char(0) == '0' && s.get_char(1) == 'x' {
        s.substring_char(2, n)
    } else {
        s
    };
    assert(digits@ =~= strip_hex_prefix(s@));
    let decoded = match hex_decode(digits.as_bytes()) {
        Ok(v) => v,
        Err(_) => {
            return Err(String::from_str("Invalid Hex string"));
        },
    };
    if decoded.len() > 32 {
        return Err(String::from_str("Address too long (max 32 bytes)"));
    }
    let mut bytes: Address = [0u8; 32];
    let mut i: usize = 0;
    while i < decoded.len()
        invariant
            i <= decoded@.len() <= 32,
            bytes@.len() == 32,
            forall|k: int| 0 <= k < i ==> #[trigger] bytes@[k] == decoded@[k],
            forall|k: int| i <= k < 32 ==> #[trigger] bytes@[k] == 0,
        decreases decoded@.len() - i,
    {
        bytes[i] = decoded[i];
        i = i + 1;
    }
    assert(bytes@ =~= decoded@ + zeros((32 - decoded@.len()) as nat));
    Ok(bytes)
}

/// Big-endian bytes of a 64-bit integer.
pub open spec fn be_u64(v: u64) -> Seq<u8> {
    seq![
        (v >> 56u64) as u8,
        (v >> 48u64) as u8,
        (v >> 40u64) as u8,
        (v >> 32u64) as u8,
        (v >> 24u64) as u8,
        (v >> 16u64) as u8,
        (v >> 8u64) as u8,
        v as u8,
    ]
}

/// The address of the client with identifier `id`: the identifier's
/// big-endian bytes, then zero bytes.
pub fn address_of_id(id: u64) -> (r: Address)
    ensures
        r@ == be_u64(id) + zeros(24),
{
    let mut a: Address = [0u8; 32];
    a[0] = (id >> 56u64) as u8;
    a[1] = (id >> 48u64) as u8;
    a[2] = (id >> 40u64) as u8;
    a[3] = (id >> 32u64) as u8;
    a[4] = (id >> 24u64) as u8;
    a[5] = (id >> 16u64) as u8;
    a[6] = (id >> 8u64) as u8;
    a[7] = id as u8;
    assert(a@ =~= be_u64(id) + zeros(24));
    a
}

// ---------------------------------------------------------------------------
// Commands
// ---------------------------------------------------------------------------
/// What the client does in answer to a command line.
pub enum Reply {
    /// `chain`: show the chain.
    ShowChain,
    /// `add` with fewer than two arguments: show how to use it.
    AddUsage,
    /// `add`: the transaction was queued; `pending` transactions now wait.
    Added { tx: Transaction, pending: usize },
    /// `add` with an address that does not parse, and why.
    AddressError(String),
    /// `add` with an amount that does not parse.
    ValueError,
    /// `mine` with nothing queued.
    NothingToMine,
    /// `mine`: hand these transactions, the whole queue, to the miner.
    Mine(Vec<Transaction>),
    /// `status`: show the queue.
    ShowStatus,
    /// `exit`: stop reading commands.
    Exit,
    /// Any other command.
    Unknown,
}

/// The answer to a command line, and the queue afterwards, given the queue
/// `pending` before, the client's own address `me`, and the Unix time `now`
/// at which the line is read.
pub open spec fn command_effect(
    line: Seq<char>,
    me: Address,
    now: i64,
    pending: Seq<Transaction>,
    r: Reply,
    after: Seq<Transaction>,
) -> bool {
    let w = spec_words(line);
    let cmd = w[0];
    if cmd == "chain"@ {
        r is ShowChain && after == pending
    } else if cmd == "add"@ {
        if w.len() < 3 {
            r is AddUsage && after == pending
        } else {
            match spec_parse_address(w[1]) {
                Err(m) => r matches Reply::AddressError(e) && e@ == m && after == pending,
                Ok(to) => match spec_parse_u128(w[2]) {
                    None => r is ValueError && after == pending,
                    Some(value) => r matches Reply::Added { tx, pending: count } && tx.to@ == to
                        && tx.from == me && tx.value == value && tx.nonce == 0 && tx.timestamp
                        == now && after == pending.push(tx) && count == after.len(),
                },
            }
        }
    } else if cmd == "mine"@ {
        if pending.len() == 0 {
            r is NothingToMine && after == pending
        } else {
            r matches Reply::Mine(txs) && txs@ == pending && after.len() == 0
        }
    } else if cmd == "status"@ {
        r is ShowStatus && after == pending
    } else if cmd == "exit"@ {
        r is Exit && after == pending
    } else {
        r is Unknown && after == pending
    }
}

/// Answers one command line read at Unix time `now`, queueing or handing
/// out transactions.
pub fn handle_command(pending: &mut Vec<Transaction>, me: Address, line: &str, now: i64) -> (r:
    Reply)
    ensures
        command_effect(line@, me, now, old(pending)@, r, final(pending)@),
{
    let parts = split_words(line);
    let command = parts[0];
    if is_word(command, "chain") {
        Reply::ShowChain
    } else if is_word(command, "add") {
        if parts.len() < 3 {
            return Reply::AddUsage;
        }
        let to = match parse_address(parts[1]) {
            Ok(to) => to,
            Err(e) => {
                return Reply::AddressError(e);
            },
        };
        let value = match parse_u128(parts[2]) {
            Some(v) => v,
            None => {
                return Reply::ValueError;
            },
        };
        let tx = Transaction::with_timestamp(to, me, value, now);
        pending.push(tx);
        Reply::Added { tx, pending: pending.len() }
    } else if is_word(command, "mine") {
        if pending.len() == 0 {
            Reply::NothingToMine
        } else {
            let mut txs: Vec<Transaction> = Vec::new();
            std::mem::swap(&mut txs, pending);
            Reply::Mine(txs)
        }
    } else if is_word(command, "status") {
        Reply::ShowStatus
    } else if is_word(command, "exit") {
        Reply::Exit
    } else {
        Reply::Unknown
    }
}

/// How many blocks the chain has gained since it was last seen with
/// `last_len` blocks, if it has grown.
pub fn chain_growth(last_len: usize, current_len: usize) -> (r: Option<usize>)
    ensures
        current_len > last_len ==> r == Some((current_len - last_len) as usize),
        current_len <= last_len ==> r is None,
{
    if current_len > last_len {
        Some(current_len - last_len)
    } else {
        None
    }
}

/// Law: `mine` hands the miner exactly the transactions queued before it,
/// in the order they were added, and leaves the queue empty; a transaction
/// queued by `add` is the last of them.
pub proof fn lemma_add_then_mine(
    add_line: Seq<char>,
    mine_line: Seq<char>,
    me: Address,
    now1: i64,
    now2: i64,
    pending: Seq<Transaction>,
    r1: Reply,
    queued: Seq<Transaction>,
    r2: Reply,
    after: Seq<Transaction>,
)
    requires
        command_effect(add_line, me, now1, pending, r1, queued),
        r1 is Added,
        spec_words(mine_line)[0] == "mine"@,
        command_effect(mine_line, me, now2, queued, r2, after),
    ensures
        r1 matches Reply::Added { tx, pending: n } && (r2 matches Reply::Mine(txs) && txs@
            == pending.push(tx)),
        after.len() == 0,
{
    reveal_strlit("mine");
    reveal_strlit("chain");
    reveal_strlit("add");
    let w = spec_words(add_line);
    assert("mine"@[0] == 'm' && "chain"@[0] == 'c' && "add"@[0] == 'a');
    assert("mine"@ != "chain"@ && "mine"@ != "add"@ && "add"@ != "chain"@);
    assert(w[0] == "add"@) by {
        if w[0] != "add"@ {
            assert(!(r1 is Added));
        }
    }
    assert(queued == pending.push(r1->tx));
    assert(queued.len() > 0);
}

// ---------------------------------------------------------------------------
// Runs of commands
// ---------------------------------------------------------------------------
/// The transactions handed to the miner by a run of replies, in order.
pub open spec fn mined(replies: Seq<Reply>) -> Seq<Transaction>
    decreases replies.len(),
{
    if replies.len() == 0 {
        Seq::empty()
    } else {
        mined(replies.drop_last()) + match replies.last() {
            Reply::Mine(txs) => txs@,
            _ => Seq::empty(),
        }
    }
}

/// The transactions queued by a run of replies, in order.
pub open spec fn added(replies: Seq<Reply>) -> Seq<Transaction>
    decreases replies.len(),
{
    if replies.len() == 0 {
        Seq::empty()
    } else {
        added(replies.drop_last()) + match replies.last() {
            Reply::Added { tx, .. } => seq![tx],
            _ => Seq::empty(),
        }
    }
}

/// A run of command lines: `queues[i]` waits before line `i`, read at
/// `times[i]`, which is answered with `replies[i]` and leaves `queues[i + 1]`.
pub open spec fn run_effect(
    lines: Seq<Seq<char>>,
    me: Address,
    times: Seq<i64>,
    queues: Seq<Seq<Transaction>>,
    replies: Seq<Reply>,
) -> bool {
    &&& queues.len() == lines.len() + 1
    &&& replies.len() == lines.len()
    &&& times.len() == lines.len()
    &&& forall|i: int|
        0 <= i < lines.len() ==> command_effect(
            lines[i],
            me,
            times[i],
            queues[i],
            #[trigger] replies[i],
            queues[i + 1],
        )
}

/// One command moves transactions only as its reply says: `Mine` hands out
/// the whole queue, `Added` appends its transaction, and any other reply
/// leaves the queue as it was.
pub proof fn lemma_command_moves(
    line: Seq<char>,
    me: Address,
    now: i64,
    pending: Seq<Transaction>,
    r: Reply,
    after: Seq<Transaction>,
)
    requires
        command_effect(line, me, now, pending, r, after),
    ensures
        match r {
            Reply::Mine(txs) => txs@ == pending && after.len() == 0 && pending.len() > 0,
            Reply::Added { tx, .. } => after == pending.push(tx),
            _ => after == pending,
        },
{
}

/// Law: over any run of command lines, the transactions handed to the miner,
/// followed by those still waiting, are those that waited at the start
/// followed by those added, in order: no transaction is lost, handed out
/// twice or reordered, and `mine` on an empty queue hands out nothing.
pub proof fn lemma_run_conserves(
    lines: Seq<Seq<char>>,
    me: Address,
    times: Seq<i64>,
    queues: Seq<Seq<Transaction>>,
    replies: Seq<Reply>,
)
    requires
        run_effect(lines, me, times, queues, replies),
    ensures
        mined(replies) + queues.last() == queues[0] + added(replies),
        forall|i: int| 0 <= i < replies.len() ==> (#[trigger] replies[i] matches Reply::Mine(txs)
            ==> txs@.len() > 0),
    decreases lines.len(),
{
    assert forall|i: int| 0 <= i < replies.len() implies (#[trigger] replies[i] matches Reply::Mine(
        txs,
    ) ==> txs@.len() > 0) by {
        lemma_command_moves(lines[i], me, times[i], queues[i], replies[i], queues[i + 1]);
    }
    if lines.len() == 0 {
        assert(mined(replies) + queues.last() =~= queues[0] + added(replies));
    } else {
        let n = lines.len() - 1;
        let ls = lines.drop_last();
        let qs = queues.drop_last();
        let rs = replies.drop_last();
        let ts = times.drop_last();
        assert forall|i: int| 0 <= i < ls.len() implies command_effect(
            ls[i],
            me,
            ts[i],
            qs[i],
            #[trigger] rs[i],
            qs[i + 1],
        ) by {
            assert(command_effect(lines[i], me, times[i], queues[i], replies[i], queues[i + 1]));
        }
        lemma_run_conserves(ls, me, ts, qs, rs);
        lemma_command_moves(lines[n], me, times[n], queues[n], replies[n], queues[n + 1]);
        assert(qs.last() == queues[n]);
        assert(replies.last() == replies[n]);
        assert(rs =~= replies.drop_last());
        match replies[n] {
            Reply::Mine(txs) => {
                assert(mined(replies) + queues.last() =~= queues[0] + added(replies));
            },
            Reply::Added { tx, .. } => {
                assert(mined(replies) =~= mined(rs));
                assert(added(replies) =~= added(rs) + seq![tx]);
                assert(queues.last() == queues[n].push(tx));
                assert(mined(rs) + queues[n].push(tx) =~= (mined(rs) + queues[n]).push(tx));
                assert(mined(replies) + queues.last() =~= queues[0] + added(replies));
            },
            _ => {
                assert(mined(replies) + queues.last() =~= queues[0] + added(replies));
            },
        }
    }
}

// ---------------------------------------------------------------------------
// Watching the chain
// ---------------------------------------------------------------------------
/// One poll of the chain watcher: with `last` blocks last reported and
/// `current` seen now, the new last length and the notice of new blocks.
pub open spec fn watch_step(last: nat, current: nat) -> (nat, Option<nat>) {
    if current > last {
        (current, Some((current - last) as nat))
    } else {
        (last, None)
    }
}

/// One poll of the chain watcher, as [`watch_step`].
pub fn watch_chain(last_len: usize, current_len: usize) -> (r: (usize, Option<usize>))
    ensures
        (r.0 as nat, match r.1 {
            Some(k) => Some(k as nat),
            None => None,
        }) == watch_step(last_len as nat, current_len as nat),
{
    match chain_growth(last_len, current_len) {
        Some(new_blocks) => (current_len, Some(new_blocks)),
        None => (last_len, None),
    }
}

/// The blocks reported by a run of notices, in total.
pub open spec fn reported(notices: Seq<Option<nat>>) -> nat
    decreases notices.len(),
{
    if notices.len() == 0 {
        0
    } else {
        reported(notices.drop_last()) + match notices.last() {
            Some(k) => k,
            None => 0,
        }
    }
}

/// A run of polls: `lasts[i]` is the last reported length before poll `i`,
/// which sees `polls[i]` blocks, starting from 0.
pub open spec fn watch_run(polls: Seq<nat>, lasts: Seq<nat>, notices: Seq<Option<nat>>) -> bool {
    &&& lasts.len() == polls.len() + 1
    &&& notices.len() == polls.len()
    &&& lasts[0] == 0
    &&& forall|i: int|
        0 <= i < polls.len() ==> (lasts[i + 1], #[trigger] notices[i]) == watch_step(
            lasts[i],
            polls[i],
        )
}

/// Law: over any run of polls, the last reported length never decreases,
/// is the largest length seen so far, and equals the total of the blocks
/// reported; a notice comes exactly at the polls that see more blocks than
/// were last reported.
pub proof fn lemma_watch_run(polls: Seq<nat>, lasts: Seq<nat>, notices: Seq<Option<nat>>)
    requires
        watch_run(polls, lasts, notices),
    ensures
        forall|i: int| 0 <= i < polls.len() ==> lasts[i] <= #[trigger] lasts[i + 1],
        forall|i: int| 0 <= i < polls.len() ==> #[trigger] polls[i] <= lasts[i + 1],
        forall|i: int|
            0 <= i < polls.len() ==> (#[trigger] notices[i] is Some <==> polls[i] > lasts[i]),
        lasts.last() == reported(notices),
    decreases polls.len(),
{
    assert forall|i: int| 0 <= i < polls.len() implies lasts[i] <= #[trigger] lasts[i + 1]
        && polls[i] <= lasts[i + 1] by {
        assert((lasts[i + 1], notices[i]) == watch_step(lasts[i], polls[i]));
    }
    assert forall|i: int| 0 <= i < polls.len() implies #[trigger] polls[i] <= lasts[i + 1] by {
        assert((lasts[i + 1], notices[i]) == watch_step(lasts[i], polls[i]));
    }
    assert forall|i: int| 0 <= i < polls.len() implies (#[trigger] notices[i] is Some <==> polls[i]
        > lasts[i]) by {
        assert((lasts[i + 1], notices[i]) == watch_step(lasts[i], polls[i]));
    }
    if polls.len() > 0 {
        let n = polls.len() - 1;
        let ps = polls.drop_last();
        let ls = lasts.drop_last();
        let ns = notices.drop_last();
        assert forall|i: int| 0 <= i < ps.len() implies (ls[i + 1], #[trigger] ns[i]) == watch_step(
            ls[i],
            ps[i],
        ) by {
            assert((lasts[i + 1], notices[i]) == watch_step(lasts[i], polls[i]));
        }
        lemma_watch_run(ps, ls, ns);
        assert((lasts[n + 1], notices[n]) == watch_step(lasts[n], polls[n]));
        assert(ns =~= notices.drop_last());
    }
}

/// Law: the address read from a text is its hexadecimal bytes, after an
/// optional leading `0x`, in order, followed by zero bytes up to 32 bytes;
/// text that is not an even number of hexadecimal digits, or that stands for
/// more than 32 bytes, is refused with its message.
pub proof fn lemma_address_bytes(s: Seq<char>)
    ensures
        ({
            let d = if s.len() >= 2 && s[0] == '0' && s[1] == 'x' {
                encode_utf8(s.skip(2))
            } else {
                encode_utf8(s)
            };
            let n = hex_bytes(d).len();
            &&& !hex_valid(d) ==> spec_parse_address(s) == Err::<Seq<u8>, Seq<char>>(
                "Invalid Hex string"@,
            )
            &&& hex_valid(d) && n > 32 ==> spec_parse_address(s) == Err::<Seq<u8>, Seq<char>>(
                "Address too long (max 32 bytes)"@,
            )
            &&& hex_valid(d) && n <= 32 ==> (spec_parse_address(s) matches Ok(a) && a.len() == 32
                && a.subrange(0, n as int) == hex_bytes(d) && forall|k: int|
                n <= k < 32 ==> #[trigger] a[k] == 0)
        }),
{
    let d = encode_utf8(strip_hex_prefix(s));
    let n = hex_bytes(d).len();
    if hex_valid(d) && n <= 32 {
        let a = hex_bytes(d) + zeros((32 - n) as nat);
        assert(a.subrange(0, n as int) =~= hex_bytes(d));
    }
}

/// Law: a transaction queued by `add` pays exactly the 32-byte address that
/// `parse_address` reads from the line's second word and the amount that
/// `parse_u128` reads from its third; it comes from `me`, carries nonce 0
/// and the time `now`, and is appended to the queue.
pub proof fn lemma_added_transaction(
    line: Seq<char>,
    me: Address,
    now: i64,
    pending: Seq<Transaction>,
    r: Reply,
    after: Seq<Transaction>,
)
    requires
        command_effect(line, me, now, pending, r, after),
        r is Added,
    ensures
        spec_words(line).len() == 3,
        spec_words(line)[0] == "add"@,
        spec_parse_address(spec_words(line)[1]) == Ok::<Seq<u8>, Seq<char>>(r->tx.to@),
        spec_parse_u128(spec_words(line)[2]) == Some(r->tx.value),
        r->tx.from == me,
        r->tx.nonce == 0,
        r->tx.timestamp == now,
        after == pending.push(r->tx),
        r->Added_pending == after.len(),
{
    reveal_strlit("mine");
    reveal_strlit("chain");
    reveal_strlit("add");
    let w = spec_words(line);
    assert("mine"@[0] == 'm' && "chain"@[0] == 'c' && "add"@[0] == 'a');
    assert("mine"@ != "chain"@ && "mine"@ != "add"@ && "add"@ != "chain"@);
    assert(w[0] == "add"@) by {
        if w[0] != "add"@ {
            assert(!(r is Added));
        }
    }
    assert(w.len() <= 3);
}

} // verus!
