//! Transcript encoding: a completed game is summarised as the decimal seed
//! followed by the human side's moves, comma-separated, with no whitespace
//! and no trailing delimiter (for example `"1699999999,4,0,2"`). This module
//! serialises transcripts, parses untrusted strings back, and proves the
//! round trip.

use vstd::prelude::*;

verus! {

/// Why a transcript string was rejected.
#[derive(Clone, Copy, PartialEq, Eq, Structural, Debug)]
pub enum ParseError {
    /// The seed token is not a valid decimal 64-bit unsigned integer.
    InvalidSeed,
    /// A move token is not a valid decimal index in `0 .. 9`.
    InvalidMove,
}

/// A transcript: the seed the opponent's generator started from, plus the
/// human side's moves in turn order.
#[derive(Debug)]
pub struct GameRound {
    pub seed: u64,
    pub player_moves: Vec<usize>,
}

/// Whether `c` is a decimal digit.
pub open spec fn is_digit(c: char) -> bool {
    48 <= c as u32 && c as u32 <= 57
}

/// Numeric value of a decimal digit.
pub open spec fn digit_val(c: char) -> int {
    c as u32 - 48
}

/// The decimal digit with value `d`.
pub open spec fn digit_char(d: int) -> char {
    if d == 0 {
        '0'
    } else if d == 1 {
        '1'
    } else if d == 2 {
        '2'
    } else if d == 3 {
        '3'
    } else if d == 4 {
        '4'
    } else if d == 5 {
        '5'
    } else if d == 6 {
        '6'
    } else if d == 7 {
        '7'
    } else if d == 8 {
        '8'
    } else {
        '9'
    }
}

/// Decimal digits of `n`, most significant first; `0` is written `"0"`.
pub open spec fn u64_digits(n: nat) -> Seq<char>
    decreases n,
{
    if n < 10 {
        seq![digit_char(n as int)]
    } else {
        u64_digits(n / 10) + seq![digit_char((n % 10) as int)]
    }
}

/// Whether `s` is one or more decimal digits.
pub open spec fn all_digits(s: Seq<char>) -> bool {
    s.len() > 0 && forall|i: int| 0 <= i < s.len() ==> is_digit(#[trigger] s[i])
}

/// Value of a digit string, most significant first.
pub open spec fn digits_val(s: Seq<char>) -> int
    decreases s.len(),
{
    if s.len() == 0 {
        0
    } else {
        digits_val(s.drop_last()) * 10 + digit_val(s.last())
    }
}

/// The value of a decimal token as `u64::from_str` accepts it: an optional
/// leading `+`, then one or more digits, denoting a value that fits in 64
/// bits; anything else is rejected.
pub open spec fn parse_u64_chars(s: Seq<char>) -> Option<u64> {
    let d = if s.len() > 0 && s[0] == '+' {
        s.drop_first()
    } else {
        s
    };
    if all_digits(d) && digits_val(d) <= u64::MAX {
        Some(digits_val(d) as u64)
    } else {
        None
    }
}

/// Index of the first comma of `s`, or `s.len()` if there is none.
pub open spec fn first_comma(s: Seq<char>) -> int
    decreases s.len(),
{
    if s.len() == 0 {
        0
    } else if s[0] == ',' {
        0
    } else {
        1 + first_comma(s.drop_first())
    }
}

/// The comma-separated tokens of `s`, as `str::split(',')` yields them: an
/// empty string is one empty token, and adjacent commas yield empty tokens.
pub open spec fn tokens(s: Seq<char>) -> Seq<Seq<char>>
    decreases s.len(),
{
    let i = first_comma(s);
    if 0 <= i < s.len() {
        seq![s.take(i)] + tokens(s.skip(i + 1))
    } else {
        seq![s]
    }
}

/// The textual tail of a transcript: a comma and the decimal digits of each
/// move, in order.
pub open spec fn moves_str(moves: Seq<usize>) -> Seq<char>
    decreases moves.len(),
{
    if moves.len() == 0 {
        Seq::empty()
    } else {
        seq![','] + u64_digits(moves[0] as nat) + moves_str(moves.drop_first())
    }
}

/// The wire form of a transcript: the decimal seed, then each move preceded
/// by a comma.
pub open spec fn serialize_spec(seed: u64, moves: Seq<usize>) -> Seq<char> {
    u64_digits(seed as nat) + moves_str(moves)
}

/// The move list encoded by a token list: every token must be a decimal
/// index in `0 .. 9`.
pub open spec fn parse_moves(ts: Seq<Seq<char>>) -> Option<Seq<usize>>
    decreases ts.len(),
{
    if ts.len() == 0 {
        Some(Seq::empty())
    } else {
        match parse_u64_chars(ts[0]) {
            None => None,
            Some(v) => if v < 9 {
                match parse_moves(ts.drop_first()) {
                    None => None,
                    Some(rest) => Some(seq![v as usize] + rest),
                }
            } else {
                None
            },
        }
    }
}

/// The transcript encoded by a string: the first token is the seed, every
/// further token a move index in `0 .. 9`; the first offending token decides
/// the error.
pub open spec fn deserialize_spec(s: Seq<char>) -> Result<(u64, Seq<usize>), ParseError> {
    let ts = tokens(s);
    match parse_u64_chars(ts[0]) {
        None => Err(ParseError::InvalidSeed),
        Some(seed) => match parse_moves(ts.drop_first()) {
            None => Err(ParseError::InvalidMove),
            Some(ms) => Ok((seed, ms)),
        },
    }
}

/// The exec mirror of `digit_char`, as a one-character string.
pub(crate) fn digit_str(d: u64) -> (r: &'static str)
    requires
        d < 10,
    ensures
        r@ == seq![digit_char(d as int)],
{
    proof {
        reveal_strlit("0");
        reveal_strlit("1");
        reveal_strlit("2");
        reveal_strlit("3");
        reveal_strlit("4");
        reveal_strlit("5");
        reveal_strlit("6");
        reveal_strlit("7");
        reveal_strlit("8");
        reveal_strlit("9");
    }
    let r = match d {
        0 => "0",
        1 => "1",
        2 => "2",
        3 => "3",
        4 => "4",
        5 => "5",
        6 => "6",
        7 => "7",
        8 => "8",
        _ => "9",
    };
    proof {
        assert(r@ =~= seq![digit_char(d as int)]);
    }
    r
}

/// Render `n` in decimal.
fn u64_to_string(n: u64) -> (r: String)
    ensures
        r@ == u64_digits(n as nat),
{
    if n == 0 {
        let r = String::from_str(digit_str(0));
        proof {
            assert(r@ =~= u64_digits(0));
        }
        return r;
    }
    let mut s = String::new();
    let mut m: u64 = n;
    proof {
        assert(u64_digits(n as nat) =~= u64_digits(m as nat) + s@);
    }
    while m > 0
        invariant
            m > 0 ==> u64_digits(n as nat) == u64_digits(m as nat) + s@,
            m == 0 ==> u64_digits(n as nat) == s@,
        decreases m,
    {
        let d = m % 10;
        let piece = String::from_str(digit_str(d));
        let rest = s;
        s = piece.concat(rest.as_str());
        let ghost m_old = m as nat;
        m = m / 10;
        proof {
            if m_old >= 10 {
                assert(u64_digits(m_old) =~= u64_digits(m_old / 10) + seq![
                    digit_char((m_old % 10) as int),
                ]);
                assert(u64_digits(n as nat) =~= u64_digits(m as nat) + s@);
            } else {
                assert(u64_digits(m_old) =~= seq![digit_char(m_old as int)]);
                assert(u64_digits(n as nat) =~= s@);
            }
        }
    }
    s
}

/// Serialise a transcript: the decimal seed, then each move preceded by a
/// comma.
pub fn format_seed_and_moves(seed: u64, moves: &Vec<usize>) -> (r: String)
    ensures
        r@ == serialize_spec(seed, moves@),
{
    let mut result = u64_to_string(seed);
    proof {
        reveal_strlit(",");
        assert(moves@.take(0) =~= Seq::<usize>::empty());
        assert(result@ =~= serialize_spec(seed, moves@.take(0)));
    }
    let mut i: usize = 0;
    while i < moves.len()
        invariant
            i <= moves.len(),
            result@ == serialize_spec(seed, moves@.take(i as int)),
        decreases moves.len() - i,
    {
        proof {
            reveal_strlit(",");
        }
        result.append(",");
        let digits = u64_to_string(moves[i] as u64);
        result.append(digits.as_str());
        proof {
            lemma_moves_str_push(moves@.take(i as int), moves@[i as int]);
            assert(moves@.take(i as int).push(moves@[i as int]) =~= moves@.take(i + 1));
            assert(","@ =~= seq![',']);
            assert(result@ =~= serialize_spec(seed, moves@.take(i + 1)));
        }
        i += 1;
    }
    proof {
        assert(moves@.take(moves@.len() as int) =~= moves@);
    }
    result
}

/// Appending a move extends the textual tail by a comma and its digits.
proof fn lemma_moves_str_push(ms: Seq<usize>, m: usize)
    ensures
        moves_str(ms.push(m)) == moves_str(ms) + seq![','] + u64_digits(m as nat),
    decreases ms.len(),
{
    if ms.len() == 0 {
        assert(ms.push(m).drop_first() =~= ms);
        assert(moves_str(ms.push(m)) =~= moves_str(ms) + seq![','] + u64_digits(m as nat));
    } else {
        assert(ms.push(m).drop_first() =~= ms.drop_first().push(m));
        lemma_moves_str_push(ms.drop_first(), m);
        assert(moves_str(ms.push(m)) =~= moves_str(ms) + seq![','] + u64_digits(m as nat));
    }
}

/// The characters of `s`, in order.
fn chars_of(s: &str) -> (v: Vec<char>)
    ensures
        v@ == s@,
{
    let len = s.unicode_len();
    let mut v: Vec<char> = Vec::new();
    let mut i: usize = 0;
    while i < len
        invariant
            i <= len,
            len == s@.len(),
            v@ == s@.take(i as int),
        decreases len - i,
    {
        v.push(s.get_char(i));
        proof {
            assert(v@ =~= s@.take(i + 1));
        }
        i += 1;
    }
    proof {
        assert(s@.take(len as int) =~= s@);
    }
    v
}

/// Basic facts about the first comma: it is in range, nothing before it is a
/// comma, and it points at a comma when one exists.
proof fn lemma_first_comma(s: Seq<char>)
    ensures
        0 <= first_comma(s) <= s.len(),
        forall|j: int| 0 <= j < first_comma(s) ==> s[j] != ',',
        first_comma(s) < s.len() ==> s[first_comma(s)] == ',',
    decreases s.len(),
{
    if s.len() > 0 && s[0] != ',' {
        lemma_first_comma(s.drop_first());
        assert forall|j: int| 0 <= j < first_comma(s) implies s[j] != ',' by {
            if j > 0 {
                assert(s.drop_first()[j - 1] == s[j]);
            }
        }
    }
}

/// A comma-free string is a single token.
proof fn lemma_tokens_no_comma(s: Seq<char>)
    requires
        forall|j: int| 0 <= j < s.len() ==> s[j] != ',',
    ensures
        tokens(s) == seq![s],
{
    lemma_first_comma(s);
    if first_comma(s) < s.len() {
        assert(false);
    }
}

/// The first comma of `a + "," + rest` sits right after `a` when `a` itself
/// is comma-free.
proof fn lemma_first_comma_concat(a: Seq<char>, rest: Seq<char>)
    requires
        forall|j: int| 0 <= j < a.len() ==> a[j] != ',',
    ensures
        first_comma(a + seq![','] + rest) == a.len(),
    decreases a.len(),
{
    let s = a + seq![','] + rest;
    if a.len() == 0 {
        assert(s[0] == ',');
    } else {
        assert(s[0] == a[0]);
        assert(s.drop_first() =~= a.drop_first() + seq![','] + rest);
        lemma_first_comma_concat(a.drop_first(), rest);
    }
}

/// Splitting `a + "," + rest` yields `a` and then the tokens of `rest`,
/// when `a` is comma-free.
proof fn lemma_tokens_comma_split(a: Seq<char>, rest: Seq<char>)
    requires
        forall|j: int| 0 <= j < a.len() ==> a[j] != ',',
    ensures
        tokens(a + seq![','] + rest) == seq![a] + tokens(rest),
{
    let s = a + seq![','] + rest;
    lemma_first_comma_concat(a, rest);
    assert(s.take(a.len() as int) =~= a);
    assert(s.skip(a.len() as int + 1) =~= rest);
}

/// The views of a sequence of character vectors.
spec fn views_of(ts: Seq<Vec<char>>) -> Seq<Seq<char>> {
    Seq::new(ts.len(), |i: int| ts[i]@)
}

/// Split `v` at its commas, exactly as the token spec describes.
fn split_commas(v: &Vec<char>) -> (ts: Vec<Vec<char>>)
    ensures
        ts@.len() == tokens(v@).len(),
        forall|k: int| 0 <= k < ts@.len() ==> (#[trigger] ts@[k])@ == tokens(v@)[k],
        ts@.len() >= 1,
{
    let mut ts: Vec<Vec<char>> = Vec::new();
    let mut cur: Vec<char> = Vec::new();
    let ghost mut start: int = 0;
    let mut i: usize = 0;
    proof {
        assert(v@.skip(0) =~= v@);
        assert(views_of(ts@) =~= Seq::<Seq<char>>::empty());
        assert(views_of(ts@) + tokens(v@) =~= tokens(v@));
    }
    while i < v.len()
        invariant
            0 <= start <= i as int <= v@.len(),
            cur@ == v@.subrange(start, i as int),
            forall|j: int| start <= j < i ==> v@[j] != ',',
            tokens(v@) == views_of(ts@) + tokens(v@.skip(start)),
        decreases v@.len() - i,
    {
        let c = v[i];
        if c == ',' {
            proof {
                assert(v@.skip(start) =~= cur@ + seq![','] + v@.skip(i + 1));
                lemma_tokens_comma_split(cur@, v@.skip(i + 1));
            }
            let ghost ts_old = ts@;
            let done = cur;
            cur = Vec::new();
            ts.push(done);
            proof {
                assert(views_of(ts@) =~= views_of(ts_old).push(done@));
                start = i + 1;
                assert(cur@ =~= v@.subrange(start, i + 1));
                assert(views_of(ts_old).push(done@) + tokens(v@.skip(start)) =~= views_of(ts_old)
                    + (seq![done@] + tokens(v@.skip(start))));
            }
        } else {
            cur.push(c);
            proof {
                assert(cur@ =~= v@.subrange(start, i + 1));
            }
        }
        i += 1;
    }
    proof {
        assert(v@.skip(start) =~= cur@);
        lemma_tokens_no_comma(cur@);
    }
    let ghost ts_old = ts@;
    ts.push(cur);
    proof {
        assert(views_of(ts@) =~= views_of(ts_old).push(v@.skip(start)));
        assert(views_of(ts@) =~= tokens(v@));
        assert forall|k: int| 0 <= k < ts@.len() implies (#[trigger] ts@[k])@ == tokens(v@)[k] by {
            assert(views_of(ts@)[k] == ts@[k]@);
        }
    }
    ts
}

/// A longer digit prefix never denotes a smaller value.
proof fn lemma_digits_val_mono(s: Seq<char>, j: int)
    requires
        0 <= j <= s.len(),
        forall|i: int| 0 <= i < s.len() ==> is_digit(#[trigger] s[i]),
    ensures
        0 <= digits_val(s.take(j)),
        digits_val(s.take(j)) <= digits_val(s),
    decreases s.len(),
{
    if j == s.len() {
        assert(s.take(j) =~= s);
        lemma_digits_val_nonneg(s);
    } else {
        assert(s.take(j) =~= s.drop_last().take(j));
        lemma_digits_val_mono(s.drop_last(), j);
        lemma_digits_val_nonneg(s.drop_last());
    }
}

/// A digit string denotes a non-negative value.
proof fn lemma_digits_val_nonneg(s: Seq<char>)
    requires
        forall|i: int| 0 <= i < s.len() ==> is_digit(#[trigger] s[i]),
    ensures
        0 <= digits_val(s),
    decreases s.len(),
{
    if s.len() > 0 {
        lemma_digits_val_nonneg(s.drop_last());
    }
}

/// Parse a decimal token as `u64::from_str` does.
fn parse_u64_token(t: &Vec<char>) -> (r: Option<u64>)
    ensures
        r == parse_u64_chars(t@),
{
    let ghost d = if t@.len() > 0 && t@[0] == '+' {
        t@.drop_first()
    } else {
        t@
    };
    let mut i: usize = 0;
    if t.len() > 0 && t[0] == '+' {
        i = 1;
    }
    let ghost start = i as int;
    proof {
        assert(d =~= t@.skip(start));
    }
    if i >= t.len() {
        return None;
    }
    let mut acc: u64 = 0;
    while i < t.len()
        invariant
            start <= i as int <= t@.len(),
            start == (if t@.len() > 0 && t@[0] == '+' {
                1int
            } else {
                0int
            }),
            d == (if t@.len() > 0 && t@[0] == '+' {
                t@.drop_first()
            } else {
                t@
            }),
            d == t@.skip(start),
            forall|k: int| 0 <= k < i - start ==> is_digit(#[trigger] d[k]),
            acc as int == digits_val(d.take(i - start)),
        decreases t@.len() - i,
    {
        let c = t[i];
        let u = c as u32;
        if u < 48 || u > 57 {
            proof {
                assert(d[i - start] == t@[i as int]);
                assert(!is_digit(d[i - start]));
            }
            return None;
        }
        let dv = (u - 48) as u64;
        let wide = (acc as u128) * 10 + (dv as u128);
        proof {
            assert(d.take(i - start + 1).drop_last() =~= d.take(i - start));
            assert(d.take(i - start + 1).last() == t@[i as int]);
        }
        if wide > u64::MAX as u128 {
            proof {
                if all_digits(d) {
                    lemma_digits_val_mono(d, i - start + 1);
                }
            }
            return None;
        }
        acc = wide as u64;
        i += 1;
    }
    proof {
        assert(d.take(t@.len() - start) =~= d);
        assert(all_digits(d));
    }
    Some(acc)
}

/// Parse a transcript string: the first token is the seed, every further
/// token a move index in `0 .. 9`. The first offending token decides the
/// error; nothing else is ever reported.
pub fn deserialize(input: &str) -> (r: Result<GameRound, ParseError>)
    ensures
        r matches Ok(g) ==> deserialize_spec(input@) == Result::<(u64, Seq<usize>), ParseError>::Ok(
            (g.seed, g.player_moves@),
        ),
        r matches Err(e) ==> deserialize_spec(input@) == Result::<
            (u64, Seq<usize>),
            ParseError,
        >::Err(e),
{
    let v = chars_of(input);
    let ts = split_commas(&v);
    let ghost toks = tokens(input@);
    proof {
        assert(ts@[0]@ == toks[0]);
    }
    let seed = match parse_u64_token(&ts[0]) {
        None => {
            return Err(ParseError::InvalidSeed);
        },
        Some(s) => s,
    };
    let mut moves: Vec<usize> = Vec::new();
    let mut i: usize = 1;
    proof {
        assert(toks.skip(1) =~= toks.drop_first());
        match parse_moves(toks.skip(1)) {
            Some(rest) => {
                assert(moves@ + rest =~= rest);
            },
            None => {},
        }
    }
    while i < ts.len()
        invariant
            1 <= i as int <= ts@.len(),
            toks == tokens(input@),
            parse_u64_chars(toks[0]) == Some(seed),
            ts@.len() == toks.len(),
            forall|k: int| 0 <= k < ts@.len() ==> (#[trigger] ts@[k])@ == toks[k],
            parse_moves(toks.drop_first()) == (match parse_moves(toks.skip(i as int)) {
                None => None::<Seq<usize>>,
                Some(rest) => Some(moves@ + rest),
            }),
        decreases ts@.len() - i,
    {
        proof {
            assert(ts@[i as int]@ == toks[i as int]);
            assert(toks.skip(i as int)[0] == toks[i as int]);
            assert(toks.skip(i as int).drop_first() =~= toks.skip(i + 1));
        }
        match parse_u64_token(&ts[i]) {
            None => {
                return Err(ParseError::InvalidMove);
            },
            Some(mv) => {
                if mv < 9 {
                    moves.push(mv as usize);
                    proof {
                        match parse_moves(toks.skip(i + 1)) {
                            Some(rest) => {
                                assert(moves@ + rest =~= (moves@.drop_last() + (seq![
                                    mv as usize,
                                ] + rest)));
                            },
                            None => {},
                        }
                    }
                } else {
                    return Err(ParseError::InvalidMove);
                }
            },
        }
        i += 1;
    }
    proof {
        assert(toks.skip(ts@.len() as int) =~= Seq::<Seq<char>>::empty());
        assert(moves@ + Seq::<usize>::empty() =~= moves@);
    }
    Ok(GameRound { seed, player_moves: moves })
}

/// All characters written for a number are digits: never a comma, never a
/// sign.
proof fn lemma_u64_digits_are_digits(n: nat)
    ensures
        u64_digits(n).len() >= 1,
        forall|i: int|
            0 <= i < u64_digits(n).len() ==> is_digit(#[trigger] u64_digits(n)[i]) && u64_digits(
                n,
            )[i] != ',' && u64_digits(n)[i] != '+',
    decreases n,
{
    if n >= 10 {
        lemma_u64_digits_are_digits(n / 10);
    }
}

/// The digits written for `n` denote `n`.
proof fn lemma_digits_val_of_u64(n: nat)
    ensures
        digits_val(u64_digits(n)) == n,
    decreases n,
{
    if n < 10 {
        let s = u64_digits(n);
        assert(s == seq![digit_char(n as int)]);
        assert(s.drop_last() =~= Seq::<char>::empty());
        assert(digits_val(s.drop_last()) == 0);
        assert(s.last() == digit_char(n as int));
        assert(digit_val(digit_char(n as int)) == n);
    } else {
        lemma_digits_val_of_u64(n / 10);
        let s = u64_digits(n);
        assert(s == u64_digits(n / 10) + seq![digit_char((n % 10) as int)]);
        assert(s.drop_last() =~= u64_digits(n / 10));
        assert(s.last() == digit_char((n % 10) as int));
        assert(digit_val(digit_char((n % 10) as int)) == n % 10);
        vstd::arithmetic::div_mod::lemma_fundamental_div_mod(n as int, 10);
        assert(digits_val(s) == (n / 10) * 10 + n % 10);
    }
}

/// A serialised `u64` parses back to itself.
proof fn lemma_parse_of_digits(n: u64)
    ensures
        parse_u64_chars(u64_digits(n as nat)) == Some(n),
{
    lemma_u64_digits_are_digits(n as nat);
    lemma_digits_val_of_u64(n as nat);
}

/// The digit tokens of a move list.
pub open spec fn move_tokens(moves: Seq<usize>) -> Seq<Seq<char>> {
    Seq::new(moves.len(), |i: int| u64_digits(moves[i] as nat))
}

/// Splitting a serialised transcript recovers one token per field.
proof fn lemma_tokens_of_serialized(a: Seq<char>, moves: Seq<usize>)
    requires
        forall|j: int| 0 <= j < a.len() ==> a[j] != ',',
    ensures
        tokens(a + moves_str(moves)) == seq![a] + move_tokens(moves),
    decreases moves.len(),
{
    if moves.len() == 0 {
        assert(a + moves_str(moves) =~= a);
        lemma_tokens_no_comma(a);
        assert(seq![a] + move_tokens(moves) =~= seq![a]);
    } else {
        let m0 = moves[0];
        let rest = moves.drop_first();
        assert(a + moves_str(moves) =~= a + seq![','] + (u64_digits(m0 as nat) + moves_str(rest)));
        lemma_tokens_comma_split(a, u64_digits(m0 as nat) + moves_str(rest));
        lemma_u64_digits_are_digits(m0 as nat);
        lemma_tokens_of_serialized(u64_digits(m0 as nat), rest);
        assert(seq![a] + move_tokens(moves) =~= seq![a] + (seq![u64_digits(m0 as nat)]
            + move_tokens(rest)));
    }
}

/// The digit tokens of a valid move list parse back to the list.
proof fn lemma_parse_moves_of_tokens(moves: Seq<usize>)
    requires
        forall|i: int| 0 <= i < moves.len() ==> (#[trigger] moves[i]) < 9,
    ensures
        parse_moves(move_tokens(moves)) == Some(moves),
    decreases moves.len(),
{
    if moves.len() > 0 {
        let m0 = moves[0];
        lemma_parse_of_digits(m0 as u64);
        assert(move_tokens(moves)[0] == u64_digits(m0 as nat));
        assert(move_tokens(moves).drop_first() =~= move_tokens(moves.drop_first()));
        lemma_parse_moves_of_tokens(moves.drop_first());
        assert(seq![(m0 as u64) as usize] + moves.drop_first() =~= moves);
    }
}

/// Round trip: a serialised valid transcript deserialises to itself.
pub proof fn lemma_round_trip(seed: u64, moves: Seq<usize>)
    requires
        forall|i: int| 0 <= i < moves.len() ==> (#[trigger] moves[i]) < 9,
    ensures
        deserialize_spec(serialize_spec(seed, moves)) == Result::<
            (u64, Seq<usize>),
            ParseError,
        >::Ok((seed, moves)),
{
    lemma_u64_digits_are_digits(seed as nat);
    lemma_tokens_of_serialized(u64_digits(seed as nat), moves);
    let ts = tokens(serialize_spec(seed, moves));
    assert(ts[0] == u64_digits(seed as nat));
    assert(ts.drop_first() =~= move_tokens(moves));
    lemma_parse_of_digits(seed);
    lemma_parse_moves_of_tokens(moves);
}

} // verus!

