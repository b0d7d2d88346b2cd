//! The tokenizer: each raw argument is classified by its dash prefix and
//! split into a flag token and an attached value token where one is
//! present.  The tokenizer knows only flag syntax, never the
//! configuration.
use vstd::prelude::*;

use crate::utils::is_flag;
use crate::utils::is_long_flag;
use crate::utils::spec_is_flag;
use crate::utils::spec_is_long_flag;

verus! {

/// The syntactic class of one raw argument.
#[derive(PartialEq, Eq, Structural, Clone, Copy, Debug)]
pub enum FlagType {
    ShortFlag,
    LongFlag,
    PositionalArgument,
}

/// The class `get_flag_type` assigns: `--` first, then `-`, else a bare
/// value.
pub open spec fn spec_flag_type(t: Seq<char>) -> FlagType {
    if spec_is_long_flag(t) {
        FlagType::LongFlag
    } else if spec_is_flag(t) {
        FlagType::ShortFlag
    } else {
        FlagType::PositionalArgument
    }
}

pub fn get_flag_type(item: &str) -> (r: FlagType)
    ensures
        r == spec_flag_type(item@),
{
    if is_long_flag(item) {
        FlagType::LongFlag
    } else if is_flag(item) {
        FlagType::ShortFlag
    } else {
        FlagType::PositionalArgument
    }
}

/// Index of the first `=`, or the length if there is none.
pub open spec fn spec_find_eq(t: Seq<char>) -> int
    decreases t.len(),
{
    if t.len() == 0 {
        0
    } else if t[0] == '=' {
        0
    } else {
        1 + spec_find_eq(t.drop_first())
    }
}

pub proof fn lemma_find_eq(t: Seq<char>)
    ensures
        0 <= spec_find_eq(t) <= t.len(),
        spec_find_eq(t) < t.len() ==> t[spec_find_eq(t)] == '=',
        forall|i: int| 0 <= i < spec_find_eq(t) ==> #[trigger] t[i] != '=',
    decreases t.len(),
{
    if t.len() > 0 && t[0] != '=' {
        lemma_find_eq(t.drop_first());
        assert forall|i: int| 0 <= i < spec_find_eq(t) implies #[trigger] t[i] != '=' by {
            if i > 0 {
                assert(t.drop_first()[i - 1] == t[i]);
            }
        }
    }
}

/// Find the first `=` in `s`, returning the length when there is none.
#[verifier::loop_isolation(false)]
fn find_eq(s: &str) -> (r: usize)
    ensures
        r == spec_find_eq(s@),
{
    let n = s.unicode_len();
    let mut i: usize = 0;
    while i < n
        invariant
            i <= n,
            forall|k: int| 0 <= k < i ==> #[trigger] s@[k] != '=',
        decreases n - i,
    {
        if s.get_char(i) == '=' {
            proof {
                lemma_find_eq(s@);
            }
            return i;
        }
        i += 1;
    }
    proof {
        lemma_find_eq(s@);
    }
    n
}

/// How a long token splits: at the first `=` into flag and value, or
/// not at all.
pub open spec fn spec_split_long(t: Seq<char>) -> Seq<Seq<char>> {
    let e = spec_find_eq(t);
    if e < t.len() {
        seq![t.take(e), t.skip(e + 1)]
    } else {
        seq![t]
    }
}

/// How a short token splits: after the second character, with one
/// leading `=` of the remainder stripped; tokens of fewer than three
/// characters stay whole.
pub open spec fn spec_split_short(t: Seq<char>) -> Seq<Seq<char>> {
    if t.len() < 3 {
        seq![t]
    } else {
        let rest = t.skip(2);
        seq![t.take(2), if rest[0] == '=' {
            rest.drop_first()
        } else {
            rest
        }]
    }
}

/// How one raw argument splits, by its syntactic class.
pub open spec fn spec_split_item(t: Seq<char>) -> Seq<Seq<char>> {
    match spec_flag_type(t) {
        FlagType::LongFlag => spec_split_long(t),
        FlagType::ShortFlag => spec_split_short(t),
        FlagType::PositionalArgument => seq![t],
    }
}

/// The token stream of a raw argument sequence.
pub open spec fn spec_tokenize(args: Seq<Seq<char>>) -> Seq<Seq<char>>
    decreases args.len(),
{
    if args.len() == 0 {
        Seq::empty()
    } else {
        spec_tokenize(args.drop_last()) + spec_split_item(args.last())
    }
}

/// `--flag=value` becomes `["--flag", "value"]`.
pub fn split_long_flag(long_flag: &str) -> (r: Vec<String>)
    ensures
        r.deep_view() == spec_split_long(long_flag@),
{
    let n = long_flag.unicode_len();
    let e = find_eq(long_flag);
    proof {
        lemma_find_eq(long_flag@);
    }
    let mut out: Vec<String> = Vec::new();
    if e < n {
        out.push(long_flag.substring_char(0, e).to_owned());
        out.push(long_flag.substring_char(e + 1, n).to_owned());
        proof {
            assert(out.deep_view() =~= spec_split_long(long_flag@));
        }
    } else {
        out.push(long_flag.to_owned());
        proof {
            assert(out.deep_view() =~= spec_split_long(long_flag@));
        }
    }
    out
}

/// `-f=value`, `-fvalue` and bare `-f` become `["-f", "value"]` or
/// `["-f"]`.
pub fn split_short_flag(short_flag: &str) -> (r: Vec<String>)
    ensures
        r.deep_view() == spec_split_short(short_flag@),
{
    let n = short_flag.unicode_len();
    let mut out: Vec<String> = Vec::new();
    if n < 3 {
        out.push(short_flag.to_owned());
        proof {
            assert(out.deep_view() =~= spec_split_short(short_flag@));
        }
    } else {
        out.push(short_flag.substring_char(0, 2).to_owned());
        let rest_start: usize = if short_flag.get_char(2) == '=' {
            3
        } else {
            2
        };
        out.push(short_flag.substring_char(rest_start, n).to_owned());
        proof {
            let rest = short_flag@.skip(2);
            assert(short_flag@[2] == rest[0]);
            if rest[0] == '=' {
                assert(short_flag@.subrange(3, n as int) =~= rest.drop_first());
            }
            assert(out.deep_view() =~= spec_split_short(short_flag@));
        }
    }
    out
}

/// Split every raw argument from `start` on into its tokens, in order.
#[verifier::loop_isolation(false)]
pub fn tokenize_flag_arg_values(input_args: &Vec<String>, start: usize) -> (r: Vec<String>)
    requires
        start <= input_args@.len(),
    ensures
        r.deep_view() == spec_tokenize(input_args.deep_view().skip(start as int)),
{
    let ghost args = input_args.deep_view().skip(start as int);
    let mut out: Vec<String> = Vec::new();
    let mut i: usize = start;
    while i < input_args.len()
        invariant
            start <= i <= input_args@.len(),
            out.deep_view() == spec_tokenize(args.take(i - start)),
        decreases input_args@.len() - i,
    {
        let item = &input_args[i];
        proof {
            assert(args[i - start] == item@);
        }
        let pieces = match get_flag_type(item.as_str()) {
            FlagType::LongFlag => split_long_flag(item.as_str()),
            FlagType::ShortFlag => split_short_flag(item.as_str()),
            FlagType::PositionalArgument => {
                let mut v: Vec<String> = Vec::new();
                v.push(item.clone());
                proof {
                    assert(v.deep_view() =~= spec_split_item(item@));
                }
                v
            },
        };
        let ghost old_out = out.deep_view();
        let mut k: usize = 0;
        while k < pieces.len()
            invariant
                k <= pieces@.len(),
                out.deep_view() == old_out + pieces.deep_view().take(k as int),
            decreases pieces@.len() - k,
        {
            let piece = pieces[k].clone();
            proof {
                assert(piece == pieces@[k as int]);
            }
            let ghost prev = out@;
            out.push(piece);
            proof {
                assert(out@.len() == prev.len() + 1);
                assert(out@.last() == pieces@[k as int]);
                assert(out.deep_view().last() == pieces@[k as int].deep_view());
                assert forall|j: int| 0 <= j < prev.len() implies out.deep_view()[j] == (old_out
                    + pieces.deep_view().take(k as int))[j] by {
                    assert(out@[j] == prev[j]);
                }
                assert(out.deep_view() =~~= old_out + pieces.deep_view().take(k + 1));
            }
            k += 1;
        }
        i += 1;
        proof {
            assert(pieces.deep_view().take(pieces@.len() as int) =~= pieces.deep_view());
            assert(args.take(i - start).drop_last() =~= args.take(i - start - 1));
            assert(args.take(i - start).last() == args[i - start - 1]);
            assert(out.deep_view() == spec_tokenize(args.take(i - start)));
        }
    }
    proof {
        assert(args.take(i - start) =~= args);
    }
    out
}

} // verus!
