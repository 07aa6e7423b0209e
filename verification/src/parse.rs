use vstd::prelude::*;
use vstd::slice::slice_subrange;
use crate::command::CommandType;

verus! {

/// The byte that separates the words of a command line (`' '`).
pub const SPACE: u8 = 32;

/// The optional sign in front of a number (`'+'`).
pub const PLUS: u8 = 43;

/// The words of `s` as `str::split(" ")` gives them: the runs of bytes
/// between spaces, empty ones included, so that there is always one more
/// word than there are spaces.
pub open spec fn split_spaces(s: Seq<u8>) -> Seq<Seq<u8>>
    decreases s.len(),
{
    if s.len() == 0 {
        seq![Seq::<u8>::empty()]
    } else {
        let rest = split_spaces(s.drop_first());
        if s[0] == SPACE {
            seq![Seq::<u8>::empty()] + rest
        } else {
            rest.update(0, seq![s[0]] + rest[0])
        }
    }
}

/// The bytes of the word `create`.
pub open spec fn create_word() -> Seq<u8> {
    seq![99u8, 114u8, 101u8, 97u8, 116u8, 101u8]
}

/// The bytes of the word `connect`.
pub open spec fn connect_word() -> Seq<u8> {
    seq![99u8, 111u8, 110u8, 110u8, 101u8, 99u8, 116u8]
}

/// The bytes of the word `move`.
pub open spec fn move_word() -> Seq<u8> {
    seq![109u8, 111u8, 118u8, 101u8]
}

/// An ASCII decimal digit.
pub open spec fn is_digit(b: u8) -> bool {
    48 <= b <= 57
}

pub open spec fn all_digits(d: Seq<u8>) -> bool {
    forall|i: int| 0 <= i < d.len() ==> is_digit(#[trigger] d[i])
}

/// The number that a string of decimal digits stands for.
pub open spec fn digits_value(d: Seq<u8>) -> nat
    decreases d.len(),
{
    if d.len() == 0 {
        0
    } else {
        digits_value(d.drop_last()) * 10 + (d.last() - 48) as nat
    }
}

/// The word without its leading `+`, if it has one.
pub open spec fn unsigned_digits(w: Seq<u8>) -> Seq<u8> {
    if w.len() > 0 && w[0] == PLUS {
        w.drop_first()
    } else {
        w
    }
}

/// What parsing `w` as an unsigned integer no larger than `max` gives, as
/// `str::parse` does for the unsigned types: an optional `+`, then one or
/// more decimal digits whose value is at most `max`; anything else fails.
pub open spec fn decimal_of(w: Seq<u8>, max: nat) -> Option<nat> {
    let d = unsigned_digits(w);
    if d.len() > 0 && all_digits(d) && digits_value(d) <= max {
        Some(digits_value(d))
    } else {
        None
    }
}

/// The command that a line typed by a player stands for: its kind, the
/// board number of a `connect`, and the column and row of a `move`.
/// `create` takes any further words; `connect` takes exactly one number,
/// `move` exactly two that fit a byte.
pub open spec fn command_of_line(s: Seq<u8>) -> Option<(CommandType, u64, u8, u8)> {
    let words = split_spaces(s);
    if words[0] == create_word() {
        Some((CommandType::Create, 0, 0, 0))
    } else if words[0] == connect_word() {
        if words.len() != 2 {
            None
        } else {
            match decimal_of(words[1], u64::MAX as nat) {
                Some(n) => Some((CommandType::Connect, n as u64, 0, 0)),
                None => None,
            }
        }
    } else if words[0] == move_word() {
        if words.len() != 3 {
            None
        } else {
            match (decimal_of(words[1], 255), decimal_of(words[2], 255)) {
                (Some(x), Some(y)) => Some((CommandType::Move, 0, x as u8, y as u8)),
                _ => None,
            }
        }
    } else {
        None
    }
}

/// The ASCII byte of a decimal digit.
pub open spec fn digit_byte(d: nat) -> u8 {
    (d + 48) as u8
}

/// `n` written in decimal, as bytes.
pub open spec fn decimal_bytes(n: nat) -> Seq<u8>
    decreases n,
{
    if n < 10 {
        seq![digit_byte(n)]
    } else {
        decimal_bytes(n / 10).push(digit_byte(n % 10))
    }
}

/// The decimal bytes of a number are digits, neither a sign nor a space,
/// and stand for the number.
pub proof fn lemma_decimal_bytes_digits(n: nat)
    ensures
        decimal_bytes(n).len() > 0,
        all_digits(decimal_bytes(n)),
        digits_value(decimal_bytes(n)) == n,
    decreases n,
{
    let b = decimal_bytes(n);
    if n < 10 {
        assert(b.drop_last() =~= Seq::<u8>::empty());
        assert(digit_byte(n) == n + 48);
        assert(b.last() == digit_byte(n));
        assert(digits_value(b) == digits_value(b.drop_last()) * 10 + (b.last() - 48) as nat);
        assert(digits_value(Seq::<u8>::empty()) == 0);
    } else {
        lemma_decimal_bytes_digits(n / 10);
        let p = decimal_bytes(n / 10);
        assert(b.drop_last() =~= p);
        assert(digit_byte(n % 10) == n % 10 + 48);
        assert((n / 10) * 10 + n % 10 == n);
        assert(b.last() == digit_byte(n % 10));
        assert(digits_value(b) == digits_value(b.drop_last()) * 10 + (b.last() - 48) as nat);
        assert forall|i: int| 0 <= i < b.len() implies is_digit(#[trigger] b[i]) by {
            if i < p.len() {
                assert(b[i] == p[i]);
            }
        }
    }
}

/// Writing a number in decimal and reading it back gives the number.
pub proof fn lemma_decimal_roundtrip(n: nat, max: nat)
    requires
        n <= max,
    ensures
        decimal_of(decimal_bytes(n), max) == Some(n),
{
    lemma_decimal_bytes_digits(n);
    let b = decimal_bytes(n);
    assert(is_digit(b[0]));
    assert(unsigned_digits(b) == b);
}

/// No space stands in the decimal bytes of a number.
proof fn lemma_decimal_no_space(n: nat)
    ensures
        forall|j: int| 0 <= j < decimal_bytes(n).len() ==> decimal_bytes(n)[j] != SPACE,
{
    lemma_decimal_bytes_digits(n);
    let b = decimal_bytes(n);
    assert forall|j: int| 0 <= j < b.len() implies b[j] != SPACE by {
        assert(is_digit(b[j]));
    }
}

proof fn lemma_split_nonempty(s: Seq<u8>)
    ensures
        split_spaces(s).len() >= 1,
    decreases s.len(),
{
    if s.len() > 0 {
        lemma_split_nonempty(s.drop_first());
    }
}

/// Splitting at the first space gives the first word, then the words of
/// what follows the space.
proof fn lemma_split_at_first_space(s: Seq<u8>, i: int)
    requires
        0 <= i < s.len(),
        s[i] == SPACE,
        forall|j: int| 0 <= j < i ==> s[j] != SPACE,
    ensures
        split_spaces(s) == seq![s.take(i)] + split_spaces(s.skip(i + 1)),
    decreases i,
{
    if i == 0 {
        assert(s.take(0) =~= Seq::<u8>::empty());
        assert(s.skip(1) =~= s.drop_first());
    } else {
        let t = s.drop_first();
        lemma_split_at_first_space(t, i - 1);
        assert(t.skip(i) =~= s.skip(i + 1));
        assert(seq![s[0]] + t.take(i - 1) =~= s.take(i));
        let rest = split_spaces(t);
        assert(rest.update(0, seq![s[0]] + rest[0]) =~= seq![s.take(i)] + split_spaces(
            s.skip(i + 1),
        ));
    }
}

/// Without a space, the whole of `s` is its only word.
proof fn lemma_split_no_space(s: Seq<u8>)
    requires
        forall|j: int| 0 <= j < s.len() ==> s[j] != SPACE,
    ensures
        split_spaces(s) == seq![s],
    decreases s.len(),
{
    if s.len() == 0 {
        assert(s =~= Seq::<u8>::empty());
    } else {
        let t = s.drop_first();
        lemma_split_no_space(t);
        assert(s[0] != SPACE);
        assert(seq![s[0]] + t =~= s);
        assert(split_spaces(t).update(0, seq![s[0]] + t) =~= seq![s]);
    }
}

/// A prefix of a digit string has no larger a value than the whole.
proof fn lemma_digits_prefix_le(d: Seq<u8>, k: int)
    requires
        0 <= k <= d.len(),
        all_digits(d),
    ensures
        digits_value(d.take(k)) <= digits_value(d),
    decreases d.len(),
{
    if k == d.len() {
        assert(d.take(k) =~= d);
    } else {
        let p = d.drop_last();
        assert(all_digits(p)) by {
            assert forall|i: int| 0 <= i < p.len() implies is_digit(#[trigger] p[i]) by {
                assert(p[i] == d[i]);
            }
        }
        lemma_digits_prefix_le(p, k);
        assert(p.take(k) =~= d.take(k));
        assert(is_digit(d[d.len() - 1]));
    }
}

/// The index of the first space of `s`, if there is one.
fn find_space(s: &[u8]) -> (r: Option<usize>)
    ensures
        match r {
            Some(i) => i < s@.len() && s@[i as int] == SPACE && forall|j: int|
                0 <= j < i ==> s@[j] != SPACE,
            None => forall|j: int| 0 <= j < s@.len() ==> s@[j] != SPACE,
        },
{
    let mut i: usize = 0;
    while i < s.len()
        invariant
            i <= s@.len(),
            forall|j: int| 0 <= j < i ==> s@[j] != SPACE,
        decreases s@.len() - i,
    {
        if s[i] == SPACE {
            return Some(i);
        }
        i = i + 1;
    }
    None
}

/// The first word of `s` and, if a space follows it, what comes after
/// that space.
fn split_first_word(s: &[u8]) -> (r: (&[u8], Option<&[u8]>))
    ensures
        split_spaces(s@) == seq![r.0@] + match r.1 {
            Some(rest) => split_spaces(rest@),
            None => Seq::<Seq<u8>>::empty(),
        },
{
    let n = s.len();
    match find_space(s) {
        Some(i) => {
            let word = slice_subrange(s, 0, i);
            let rest = slice_subrange(s, i + 1, n);
            proof {
                lemma_split_at_first_space(s@, i as int);
                assert(word@ =~= s@.take(i as int));
                assert(rest@ =~= s@.skip(i + 1));
            }
            (word, Some(rest))
        },
        None => {
            proof {
                lemma_split_no_space(s@);
                assert(seq![s@] + Seq::<Seq<u8>>::empty() =~= seq![s@]);
            }
            (s, None)
        },
    }
}

/// Whether two byte strings are equal.
fn bytes_eq(a: &[u8], b: &[u8]) -> (r: bool)
    ensures
        r == (a@ == b@),
{
    if a.len() != b.len() {
        return false;
    }
    let mut i: usize = 0;
    while i < a.len()
        invariant
            a@.len() == b@.len(),
            i <= a@.len(),
            forall|j: int| 0 <= j < i ==> a@[j] == b@[j],
        decreases a@.len() - i,
    {
        if a[i] != b[i] {
            return false;
        }
        i = i + 1;
    }
    assert(a@ =~= b@);
    true
}

/// Parses `word` as an unsigned decimal number no larger than `max`: an
/// optional `+`, then one or more digits.
pub fn parse_decimal(word: &[u8], max: u64) -> (r: Option<u64>)
    ensures
        match decimal_of(word@, max as nat) {
            Some(v) => r == Some(v as u64),
            None => r is None,
        },
{
    let n = word.len();
    let start: usize = if n > 0 && word[0] == PLUS {
        1
    } else {
        0
    };
    let ghost d = unsigned_digits(word@);
    assert(d =~= word@.subrange(start as int, n as int));
    if start == n {
        return None;
    }
    let mut acc: u64 = 0;
    let mut i: usize = start;
    assert(d.take(0) =~= Seq::<u8>::empty());
    while i < n
        invariant
            start <= i <= n,
            n == word@.len(),
            d == unsigned_digits(word@),
            d == word@.subrange(start as int, n as int),
            all_digits(d.take(i - start)),
            acc == digits_value(d.take(i - start)),
            acc <= max,
        decreases n - i,
    {
        let b = word[i];
        let ghost k = i - start;
        assert(d[k] == b);
        if b < 48 || b > 57 {
            assert(!is_digit(d[k]));
            return None;
        }
        let digit = (b - 48) as u64;
        proof {
            assert(d.take(k + 1).drop_last() =~= d.take(k));
            assert(all_digits(d.take(k + 1))) by {
                assert forall|j: int| 0 <= j < k + 1 implies is_digit(#[trigger] d.take(k + 1)[j]) by {
                    if j < k {
                        assert(d.take(k + 1)[j] == d.take(k)[j]);
                    }
                }
            }
        }
        let next = match acc.checked_mul(10) {
            Some(t) => t.checked_add(digit),
            None => None,
        };
        match next {
            Some(v) => {
                if v > max {
                    proof {
                        if all_digits(d) {
                            lemma_digits_prefix_le(d, k + 1);
                        }
                    }
                    return None;
                }
                acc = v;
            },
            None => {
                proof {
                    if all_digits(d) {
                        lemma_digits_prefix_le(d, k + 1);
                    }
                }
                return None;
            },
        }
        i = i + 1;
    }
    assert(d.take(n - start) =~= d);
    Some(acc)
}

/// Reads a line typed by a player as a command: its kind, the board number
/// of a `connect` (0 otherwise), and the column and row of a `move` (0
/// otherwise). `None` where the line is no command.
pub fn parse_command(string_buffer: &[u8]) -> (r: Option<(CommandType, u64, u8, u8)>)
    ensures
        r == command_of_line(string_buffer@),
{
    let create: [u8; 6] = [99, 114, 101, 97, 116, 101];
    let connect: [u8; 7] = [99, 111, 110, 110, 101, 99, 116];
    let mv: [u8; 4] = [109, 111, 118, 101];
    assert(create@ =~= create_word());
    assert(connect@ =~= connect_word());
    assert(mv@ =~= move_word());
    let ghost words = split_spaces(string_buffer@);
    let (w0, rest) = split_first_word(string_buffer);
    if bytes_eq(w0, create.as_slice()) {
        return Some((CommandType::Create, 0, 0, 0));
    }
    if bytes_eq(w0, connect.as_slice()) {
        match rest {
            None => {
                return None;
            },
            Some(r1) => {
                let (w1, rest2) = split_first_word(r1);
                proof {
                    lemma_split_nonempty(r1@);
                }
                match rest2 {
                    Some(r2) => {
                        proof {
                            lemma_split_nonempty(r2@);
                        }
                        return None;
                    },
                    None => {},
                }
                assert(words[1] == w1@);
                match parse_decimal(w1, u64::MAX) {
                    Some(n) => {
                        return Some((CommandType::Connect, n, 0, 0));
                    },
                    None => {
                        return None;
                    },
                }
            },
        }
    }
    if bytes_eq(w0, mv.as_slice()) {
        match rest {
            None => {
                return None;
            },
            Some(r1) => {
                let (w1, rest2) = split_first_word(r1);
                match rest2 {
                    None => {
                        return None;
                    },
                    Some(r2) => {
                        let (w2, rest3) = split_first_word(r2);
                        match rest3 {
                            Some(r3) => {
                                proof {
                                    lemma_split_nonempty(r3@);
                                }
                                return None;
                            },
                            None => {},
                        }
                        assert(words[1] == w1@);
                        assert(words[2] == w2@);
                        let x = parse_decimal(w1, 255);
                        let y = parse_decimal(w2, 255);
                        match (x, y) {
                            (Some(x), Some(y)) => {
                                return Some((CommandType::Move, 0, x as u8, y as u8));
                            },
                            _ => {
                                return None;
                            },
                        }
                    },
                }
            },
        }
    }
    None
}

/// The lines that a player types for each command, with its numbers in
/// decimal, are read as that command: `create`; `connect` and a board
/// number; `move`, a column and a row.
pub proof fn lemma_typed_commands(n: u64, x: u8, y: u8)
    ensures
        command_of_line(create_word()) == Some((CommandType::Create, 0u64, 0u8, 0u8)),
        command_of_line(connect_word() + seq![SPACE] + decimal_bytes(n as nat)) == Some(
            (CommandType::Connect, n, 0u8, 0u8),
        ),
        command_of_line(
            move_word() + seq![SPACE] + decimal_bytes(x as nat) + seq![SPACE] + decimal_bytes(
                y as nat,
            ),
        ) == Some((CommandType::Move, 0u64, x, y)),
{
    lemma_split_no_space(create_word());

    let dn = decimal_bytes(n as nat);
    let c = connect_word() + seq![SPACE] + dn;
    lemma_decimal_no_space(n as nat);
    lemma_split_no_space(dn);
    lemma_split_at_first_space(c, 7);
    assert(c.take(7) =~= connect_word());
    assert(c.skip(8) =~= dn);
    lemma_decimal_roundtrip(n as nat, u64::MAX as nat);

    let dx = decimal_bytes(x as nat);
    let dy = decimal_bytes(y as nat);
    let m = move_word() + seq![SPACE] + dx + seq![SPACE] + dy;
    let tail = dx + seq![SPACE] + dy;
    lemma_decimal_no_space(x as nat);
    lemma_decimal_no_space(y as nat);
    lemma_decimal_bytes_digits(x as nat);
    lemma_split_no_space(dy);
    lemma_split_at_first_space(m, 4);
    assert(m.take(4) =~= move_word());
    assert(m.skip(5) =~= tail);
    assert(tail[dx.len() as int] == SPACE);
    lemma_split_at_first_space(tail, dx.len() as int);
    assert(tail.take(dx.len() as int) =~= dx);
    assert(tail.skip(dx.len() as int + 1) =~= dy);
    lemma_decimal_roundtrip(x as nat, 255);
    lemma_decimal_roundtrip(y as nat, 255);
}

} // verus!
