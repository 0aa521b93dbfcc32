//! The command-chain parser.
//!
//! A flat token stream is split on the `"/"` delimiter into sub-command
//! groups (empty groups are discarded, so repeated and boundary delimiters
//! are harmless), each group is checked for a known operation name, exact
//! operand count and well-formed operands, and the whole stream becomes an
//! ordered chain of [`ChainCommands`].  The first malformed group stops the
//! parse: no partial chain is ever returned.
//!
//! The spec functions [`split_groups`], [`parse_group`] and [`parse_tokens`]
//! are the mathematical parser; [`split_command_vector`] is proved to return
//! exactly their verdict.

use vstd::prelude::*;

use crate::commands::ChainCommands;
use crate::commands::OpKind;
use crate::commands::ParseError;
use crate::commands::rotation_of;
use crate::numbers::dec_val;
use crate::numbers::is_dec_i32;
use crate::numbers::is_dec_u32;
use crate::numbers::is_dec_u8;
use crate::numbers::parse_i32;
use crate::numbers::parse_u32;
use crate::numbers::parse_u8;
use crate::numbers::signed_val;
use crate::numbers::unsigned_body;

verus! {

/// The reserved delimiter token that separates sub-commands.
pub open spec fn delimiter() -> Seq<char> {
    "/"@
}

/// The tokens of a command vector, seen as sequences of characters.
pub open spec fn token_views(tokens: Seq<String>) -> Seq<Seq<char>> {
    tokens.map_values(|t: String| t@)
}

/// Length of the leading run of non-delimiter tokens.
pub open spec fn first_group_len(tokens: Seq<Seq<char>>) -> nat
    decreases tokens.len(),
{
    if tokens.len() == 0 || tokens[0] == delimiter() {
        0
    } else {
        1 + first_group_len(tokens.drop_first())
    }
}

/// The leading group never reaches past the end of the stream.
proof fn lemma_first_group_len_le(tokens: Seq<Seq<char>>)
    ensures
        first_group_len(tokens) <= tokens.len(),
    decreases tokens.len(),
{
    if tokens.len() > 0 && tokens[0] != delimiter() {
        lemma_first_group_len_le(tokens.drop_first());
    }
}

/// The leading group ends exactly at the first delimiter (or at the end of
/// the stream, if there is none).
proof fn lemma_first_group_len_is(tokens: Seq<Seq<char>>, j: int)
    requires
        0 <= j <= tokens.len(),
        forall|k: int| 0 <= k < j ==> tokens[k] != delimiter(),
        j == tokens.len() || tokens[j] == delimiter(),
    ensures
        first_group_len(tokens) == j,
    decreases j,
{
    if j > 0 {
        let rest = tokens.drop_first();
        assert(forall|k: int| 0 <= k < j - 1 ==> rest[k] == tokens[k + 1]);
        lemma_first_group_len_is(rest, j - 1);
    }
}

/// The sub-command groups of the stream: the maximal runs of tokens between
/// delimiters, with empty runs discarded.
pub open spec fn split_groups(tokens: Seq<Seq<char>>) -> Seq<Seq<Seq<char>>>
    decreases tokens.len(),
    via split_groups_decreases
{
    if tokens.len() == 0 {
        Seq::empty()
    } else if tokens[0] == delimiter() {
        split_groups(tokens.drop_first())
    } else {
        let k = first_group_len(tokens) as int;
        seq![tokens.take(k)] + split_groups(tokens.skip(k))
    }
}

#[via_fn]
proof fn split_groups_decreases(tokens: Seq<Seq<char>>) {
    if tokens.len() > 0 && tokens[0] != delimiter() {
        lemma_first_group_len_le(tokens);
    }
}

/// The verdict on one sub-command group: the typed operation it denotes, or
/// the exact failure.  The first token names the operation; the operand
/// count must match the operation's arity exactly; each operand must read as
/// its target type; a rotation operand must moreover be one of 90, 180, 270.
pub open spec fn parse_group(g: Seq<Seq<char>>) -> Result<ChainCommands, ParseError> {
    if g.len() == 0 {
        Err(ParseError::UnknownOperation)
    } else if g[0] == "blur"@ {
        if g.len() == 1 {
            Ok(ChainCommands::Blur {  })
        } else {
            Err(ParseError::WrongArity { op: OpKind::Blur })
        }
    } else if g[0] == "brighten"@ {
        if g.len() != 2 {
            Err(ParseError::WrongArity { op: OpKind::Brighten })
        } else if is_dec_i32(g[1]) {
            Ok(ChainCommands::Brighten { brightness: signed_val(g[1]) as i32 })
        } else {
            Err(ParseError::NotANumber { op: OpKind::Brighten })
        }
    } else if g[0] == "crop"@ {
        if g.len() != 5 {
            Err(ParseError::WrongArity { op: OpKind::Crop })
        } else if is_dec_u32(g[1]) && is_dec_u32(g[2]) && is_dec_u32(g[3]) && is_dec_u32(g[4]) {
            Ok(
                ChainCommands::Crop {
                    x: dec_val(unsigned_body(g[1])) as u32,
                    y: dec_val(unsigned_body(g[2])) as u32,
                    width: dec_val(unsigned_body(g[3])) as u32,
                    height: dec_val(unsigned_body(g[4])) as u32,
                },
            )
        } else {
            Err(ParseError::NotANumber { op: OpKind::Crop })
        }
    } else if g[0] == "rotate"@ {
        if g.len() != 2 {
            Err(ParseError::WrongArity { op: OpKind::Rotate })
        } else if rotation_of(g[1]) is Some {
            Ok(ChainCommands::Rotate { rotation: rotation_of(g[1])->0 })
        } else {
            Err(ParseError::InvalidRotation)
        }
    } else if g[0] == "invert"@ {
        if g.len() == 1 {
            Ok(ChainCommands::Invert {  })
        } else {
            Err(ParseError::WrongArity { op: OpKind::Invert })
        }
    } else if g[0] == "grayscale"@ {
        if g.len() == 1 {
            Ok(ChainCommands::Grayscale {  })
        } else {
            Err(ParseError::WrongArity { op: OpKind::Grayscale })
        }
    } else if g[0] == "fractal"@ {
        if g.len() == 1 {
            Ok(ChainCommands::Fractal {  })
        } else {
            Err(ParseError::WrongArity { op: OpKind::Fractal })
        }
    } else if g[0] == "square"@ {
        if g.len() != 4 {
            Err(ParseError::WrongArity { op: OpKind::Square })
        } else if is_dec_u8(g[1]) && is_dec_u8(g[2]) && is_dec_u8(g[3]) {
            Ok(
                ChainCommands::Square {
                    red: dec_val(unsigned_body(g[1])) as u8,
                    green: dec_val(unsigned_body(g[2])) as u8,
                    blue: dec_val(unsigned_body(g[3])) as u8,
                },
            )
        } else {
            Err(ParseError::NotANumber { op: OpKind::Square })
        }
    } else {
        Err(ParseError::UnknownOperation)
    }
}

/// The verdict on a sequence of groups: the operations in group order, or
/// the failure of the leftmost malformed group.
pub open spec fn parse_groups(groups: Seq<Seq<Seq<char>>>) -> Result<
    Seq<ChainCommands>,
    ParseError,
>
    decreases groups.len(),
{
    if groups.len() == 0 {
        Ok(Seq::empty())
    } else {
        match parse_group(groups[0]) {
            Err(e) => Err(e),
            Ok(op) => match parse_groups(groups.drop_first()) {
                Err(e) => Err(e),
                Ok(rest) => Ok(seq![op] + rest),
            },
        }
    }
}

/// The verdict on a whole token stream: what [`split_command_vector`]
/// returns.
pub open spec fn parse_tokens(tokens: Seq<Seq<char>>) -> Result<Seq<ChainCommands>, ParseError> {
    parse_groups(split_groups(tokens))
}

/// `r` prefixed with already-parsed operations, errors passed through.
spec fn with_prefix(prefix: Seq<ChainCommands>, r: Result<Seq<ChainCommands>, ParseError>) -> Result<
    Seq<ChainCommands>,
    ParseError,
> {
    match r {
        Ok(rest) => Ok(prefix + rest),
        Err(e) => Err(e),
    }
}

/// Character-for-character string comparison.
fn str_eq(a: &str, b: &str) -> (r: bool)
    ensures
        r == (a@ == b@),
{
    let na = a.unicode_len();
    let nb = b.unicode_len();
    if na != nb {
        return false;
    }
    let mut k: usize = 0;
    while k < na
        invariant
            k <= na,
            na == a@.len(),
            nb == b@.len(),
            na == nb,
            forall|m: int| 0 <= m < k ==> a@[m] == b@[m],
        decreases na - k,
    {
        if a.get_char(k) != b.get_char(k) {
            return false;
        }
        k += 1;
    }
    proof {
        assert(a@ =~= b@);
    }
    true
}

/// The end of the group that starts at `i`: the index of the next delimiter,
/// or the end of the vector.
fn find_group_end(commands: &Vec<String>, i: usize) -> (j: usize)
    requires
        i < commands@.len(),
    ensures
        i < j <= commands@.len(),
        forall|k: int| i < k < j ==> token_views(commands@)[k] != delimiter(),
        j < commands@.len() ==> token_views(commands@)[j as int] == delimiter(),
    decreases commands@.len() - i,
{
    let n = commands.len();
    let mut j = i + 1;
    while j < n
        invariant
            i < j <= n,
            n == commands@.len(),
            forall|k: int| i < k < j ==> token_views(commands@)[k] != delimiter(),
        decreases n - j,
    {
        if str_eq(commands[j].as_str(), "/") {
            return j;
        }
        j += 1;
    }
    j
}

/// Parses the group `commands[i..j]`, already known to hold no delimiter.
fn parse_group_exec(commands: &Vec<String>, i: usize, j: usize) -> (r: Result<
    ChainCommands,
    ParseError,
>)
    requires
        i < j <= commands@.len(),
    ensures
        r == parse_group(token_views(commands@).subrange(i as int, j as int)),
{
    let ghost g = token_views(commands@).subrange(i as int, j as int);
    proof {
        assert(forall|k: int| 0 <= k < g.len() ==> g[k] == commands@[i + k]@);
    }
    let n = j - i;
    let name = commands[i].as_str();
    if str_eq(name, "blur") {
        if n == 1 {
            Ok(ChainCommands::Blur {  })
        } else {
            Err(ParseError::WrongArity { op: OpKind::Blur })
        }
    } else if str_eq(name, "brighten") {
        if n != 2 {
            Err(ParseError::WrongArity { op: OpKind::Brighten })
        } else {
            match parse_i32(commands[i + 1].as_str()) {
                Some(brightness) => Ok(ChainCommands::Brighten { brightness }),
                None => Err(ParseError::NotANumber { op: OpKind::Brighten }),
            }
        }
    } else if str_eq(name, "crop") {
        if n != 5 {
            Err(ParseError::WrongArity { op: OpKind::Crop })
        } else {
            let x = parse_u32(commands[i + 1].as_str());
            let y = parse_u32(commands[i + 2].as_str());
            let width = parse_u32(commands[i + 3].as_str());
            let height = parse_u32(commands[i + 4].as_str());
            match (x, y, width, height) {
                (Some(x), Some(y), Some(width), Some(height)) => Ok(
                    ChainCommands::Crop { x, y, width, height },
                ),
                _ => Err(ParseError::NotANumber { op: OpKind::Crop }),
            }
        }
    } else if str_eq(name, "rotate") {
        if n != 2 {
            Err(ParseError::WrongArity { op: OpKind::Rotate })
        } else {
            match crate::commands::Rotation::from_str(commands[i + 1].as_str()) {
                Ok(rotation) => Ok(ChainCommands::Rotate { rotation }),
                Err(_) => Err(ParseError::InvalidRotation),
            }
        }
    } else if str_eq(name, "invert") {
        if n == 1 {
            Ok(ChainCommands::Invert {  })
        } else {
            Err(ParseError::WrongArity { op: OpKind::Invert })
        }
    } else if str_eq(name, "grayscale") {
        if n == 1 {
            Ok(ChainCommands::Grayscale {  })
        } else {
            Err(ParseError::WrongArity { op: OpKind::Grayscale })
        }
    } else if str_eq(name, "fractal") {
        if n == 1 {
            Ok(ChainCommands::Fractal {  })
        } else {
            Err(ParseError::WrongArity { op: OpKind::Fractal })
        }
    } else if str_eq(name, "square") {
        if n != 4 {
            Err(ParseError::WrongArity { op: OpKind::Square })
        } else {
            let red = parse_u8(commands[i + 1].as_str());
            let green = parse_u8(commands[i + 2].as_str());
            let blue = parse_u8(commands[i + 3].as_str());
            match (red, green, blue) {
                (Some(red), Some(green), Some(blue)) => Ok(
                    ChainCommands::Square { red, green, blue },
                ),
                _ => Err(ParseError::NotANumber { op: OpKind::Square }),
            }
        }
    } else {
        Err(ParseError::UnknownOperation)
    }
}

/// Turns the flat token stream into the chain of typed operations, exactly
/// as the mathematical parser [`parse_tokens`] reads it: sub-commands are
/// the delimiter-separated groups, empty groups are dropped, and the first
/// malformed group aborts the parse with its exact failure.
pub fn split_command_vector(commands: &Vec<String>) -> (r: Result<Vec<ChainCommands>, ParseError>)
    ensures
        match r {
            Ok(ops) => parse_tokens(token_views(commands@)) == Ok::<_, ParseError>(ops@),
            Err(e) => parse_tokens(token_views(commands@)) == Err::<Seq<ChainCommands>, _>(e),
        },
{
    let ghost tv = token_views(commands@);
    let n = commands.len();
    let mut ops: Vec<ChainCommands> = Vec::new();
    let mut i: usize = 0;
    proof {
        assert(tv.skip(0) =~= tv);
    }
    while i < n
        invariant
            i <= n,
            n == commands@.len(),
            tv == token_views(commands@),
            with_prefix(ops@, parse_tokens(tv.skip(i as int))) == parse_tokens(tv),
        decreases n - i,
    {
        let ghost s = tv.skip(i as int);
        proof {
            assert(s[0] == tv[i as int]);
            assert(tv[i as int] == commands@[i as int]@);
        }
        if str_eq(commands[i].as_str(), "/") {
            proof {
                assert(s.drop_first() =~= tv.skip(i + 1));
            }
            i += 1;
        } else {
            let j = find_group_end(commands, i);
            let ghost grp = tv.subrange(i as int, j as int);
            proof {
                assert(forall|k: int| 0 <= k < j - i ==> s[k] == tv[i + k]);
                lemma_first_group_len_is(s, j - i);
                assert(s.take(j - i) =~= grp);
                assert(s.skip(j - i) =~= tv.skip(j as int));
                assert(split_groups(s) == seq![grp] + split_groups(tv.skip(j as int)));
                assert((seq![grp] + split_groups(tv.skip(j as int)))[0] == grp);
                assert((seq![grp] + split_groups(tv.skip(j as int))).drop_first() =~= split_groups(
                    tv.skip(j as int),
                ));
            }
            match parse_group_exec(commands, i, j) {
                Ok(op) => {
                    let ghost prev = ops@;
                    ops.push(op);
                    proof {
                        if let Ok(rest) = parse_tokens(tv.skip(j as int)) {
                            assert(prev + (seq![op] + rest) =~= (prev + seq![op]) + rest);
                            assert(ops@ == prev + seq![op]);
                        }
                    }
                    i = j;
                },
                Err(e) => {
                    return Err(e);
                },
            }
        }
    }
    proof {
        assert(tv.skip(n as int) =~= Seq::<Seq<char>>::empty());
        assert(ops@ + Seq::<ChainCommands>::empty() =~= ops@);
    }
    Ok(ops)
}

/// The parse is deterministic: the verdict is a function of the tokens
/// alone, so equal token sequences always yield the same operation sequence
/// in the same order.
pub proof fn lemma_parse_deterministic(a: Seq<Seq<char>>, b: Seq<Seq<char>>)
    requires
        a == b,
    ensures
        parse_tokens(a) == parse_tokens(b),
{
}

/// A delimiter in front of the stream opens only an empty group, which is
/// discarded: the verdict does not change.
pub proof fn lemma_leading_delimiter_ignored(tokens: Seq<Seq<char>>)
    ensures
        split_groups(seq![delimiter()] + tokens) == split_groups(tokens),
        parse_tokens(seq![delimiter()] + tokens) == parse_tokens(tokens),
{
    let t = seq![delimiter()] + tokens;
    assert(t[0] == delimiter());
    assert(t.drop_first() =~= tokens);
}

/// Where one stream continues with a delimiter, the leading group is not
/// affected by what stands past that delimiter.
proof fn lemma_first_group_len_append(tokens: Seq<Seq<char>>, rest: Seq<Seq<char>>)
    requires
        rest.len() > 0,
        rest[0] == delimiter(),
    ensures
        first_group_len(tokens + rest) == first_group_len(tokens),
    decreases tokens.len(),
{
    let t = tokens + rest;
    if tokens.len() == 0 {
        assert(t =~= rest);
    } else if tokens[0] != delimiter() {
        assert(t.drop_first() =~= tokens.drop_first() + rest);
        lemma_first_group_len_append(tokens.drop_first(), rest);
    }
}

/// A delimiter at the end of the stream closes only an empty group, which is
/// discarded: the verdict does not change.
pub proof fn lemma_trailing_delimiter_ignored(tokens: Seq<Seq<char>>)
    ensures
        split_groups(tokens + seq![delimiter()]) == split_groups(tokens),
        parse_tokens(tokens + seq![delimiter()]) == parse_tokens(tokens),
    decreases tokens.len(),
{
    let t = tokens + seq![delimiter()];
    if tokens.len() == 0 {
        assert(t =~= seq![delimiter()]);
        assert(t[0] == delimiter());
        assert(t.drop_first() =~= Seq::<Seq<char>>::empty());
        assert(tokens =~= Seq::<Seq<char>>::empty());
        assert(split_groups(Seq::<Seq<char>>::empty()) == Seq::<Seq<Seq<char>>>::empty());
    } else if tokens[0] == delimiter() {
        assert(t[0] == delimiter());
        assert(t.drop_first() =~= tokens.drop_first() + seq![delimiter()]);
        lemma_trailing_delimiter_ignored(tokens.drop_first());
    } else {
        assert(t[0] == tokens[0]);
        lemma_first_group_len_append(tokens, seq![delimiter()]);
        lemma_first_group_len_le(tokens);
        let k = first_group_len(tokens) as int;
        assert(t.take(k) =~= tokens.take(k));
        assert(t.skip(k) =~= tokens.skip(k) + seq![delimiter()]);
        lemma_trailing_delimiter_ignored(tokens.skip(k));
        assert(split_groups(t) == seq![t.take(k)] + split_groups(t.skip(k)));
        assert(split_groups(tokens) == seq![tokens.take(k)] + split_groups(tokens.skip(k)));
    }
}

/// A repeated delimiter opens only an empty group, which is discarded:
/// doubling any delimiter of the stream leaves the verdict unchanged.
pub proof fn lemma_repeated_delimiter_ignored(a: Seq<Seq<char>>, b: Seq<Seq<char>>)
    ensures
        split_groups(a + seq![delimiter(), delimiter()] + b) == split_groups(
            a + seq![delimiter()] + b,
        ),
        parse_tokens(a + seq![delimiter(), delimiter()] + b) == parse_tokens(
            a + seq![delimiter()] + b,
        ),
    decreases a.len(),
{
    let lhs = a + seq![delimiter(), delimiter()] + b;
    let rhs = a + seq![delimiter()] + b;
    if a.len() == 0 {
        assert(lhs[0] == delimiter());
        assert(rhs[0] == delimiter());
        assert(lhs.drop_first() =~= seq![delimiter()] + b);
        assert(rhs.drop_first() =~= b);
        lemma_leading_delimiter_ignored(b);
    } else if a[0] == delimiter() {
        assert(lhs[0] == delimiter());
        assert(rhs[0] == delimiter());
        assert(lhs.drop_first() =~= a.drop_first() + seq![delimiter(), delimiter()] + b);
        assert(rhs.drop_first() =~= a.drop_first() + seq![delimiter()] + b);
        lemma_repeated_delimiter_ignored(a.drop_first(), b);
    } else {
        assert(lhs[0] == a[0]);
        assert(rhs[0] == a[0]);
        assert(lhs =~= a + (seq![delimiter(), delimiter()] + b));
        assert(rhs =~= a + (seq![delimiter()] + b));
        lemma_first_group_len_append(a, seq![delimiter(), delimiter()] + b);
        lemma_first_group_len_append(a, seq![delimiter()] + b);
        lemma_first_group_len_le(a);
        let k = first_group_len(a) as int;
        assert(lhs.take(k) =~= a.take(k));
        assert(rhs.take(k) =~= a.take(k));
        assert(lhs.skip(k) =~= a.skip(k) + seq![delimiter(), delimiter()] + b);
        assert(rhs.skip(k) =~= a.skip(k) + seq![delimiter()] + b);
        lemma_repeated_delimiter_ignored(a.skip(k), b);
        assert(split_groups(lhs) == seq![lhs.take(k)] + split_groups(lhs.skip(k)));
        assert(split_groups(rhs) == seq![rhs.take(k)] + split_groups(rhs.skip(k)));
    }
}

} // verus!

