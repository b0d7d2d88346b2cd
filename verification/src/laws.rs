//! Laws of the parser, each proved once and for all: help precedence,
//! default values, the first-missing-required rule, the equivalence of
//! the value-passing syntaxes, and the purity of help formatting.
use vstd::prelude::*;

use crate::config::ArgConfig;
use crate::errors::ParserErrorV;
use crate::help::spec_help;
use crate::resolve::OutcomeV;
use crate::resolve::spec_apply_defaults;
use crate::resolve::spec_default_of;
use crate::resolve::spec_finalize;
use crate::resolve::spec_find_flag_from;
use crate::resolve::spec_first_missing_required;
use crate::resolve::spec_help_token;
use crate::resolve::spec_resolve;
use crate::tokenize::lemma_find_eq;
use crate::tokenize::spec_find_eq;
use crate::tokenize::spec_tokenize;
use crate::utils::spec_is_flag;
use crate::utils::spec_is_long_flag;
use crate::utils::spec_short_alias;
use crate::values::ArgV;

verus! {

/// A token that a scanning resolver consumes without effect on the
/// token cursor's surroundings: a declared boolean flag, not `--help`.
pub open spec fn spec_is_boolean_flag_token(cfgs: Seq<ArgConfig>, t: Seq<char>) -> bool {
    &&& t != spec_help_token()
    &&& spec_is_flag(t)
    &&& match spec_find_flag_from(cfgs, t, 0) {
        Some(j) => cfgs[j].arg_type is None,
        None => false,
    }
}

/// Help precedence: when `--help` stands at position `k` and every
/// token before it is a declared boolean flag, the run ends in `Help`,
/// whatever follows `--help` and whatever was accumulated so far.
pub proof fn lemma_help_short_circuit(
    cfgs: Seq<ArgConfig>,
    toks: Seq<Seq<char>>,
    i: int,
    p: int,
    acc: Map<Seq<char>, ArgV>,
    k: int,
)
    requires
        0 <= i <= k < toks.len(),
        toks[k] == spec_help_token(),
        forall|j: int| i <= j < k ==> spec_is_boolean_flag_token(cfgs, #[trigger] toks[j]),
    ensures
        spec_resolve(cfgs, toks, i, p, acc) == OutcomeV::Help,
    decreases k - i,
{
    if i < k {
        assert(spec_is_boolean_flag_token(cfgs, toks[i]));
        let j = spec_find_flag_from(cfgs, toks[i], 0)->0;
        lemma_help_short_circuit(
            cfgs,
            toks,
            i + 1,
            p,
            acc.insert(cfgs[j].name@, ArgV::Boolean(true)),
            k,
        );
    }
}

/// A one-item argument list tokenizes to that item's split.
proof fn lemma_tokenize_one(t: Seq<char>)
    ensures
        spec_tokenize(seq![t]) == crate::tokenize::spec_split_item(t),
{
    assert(seq![t].drop_last() =~= Seq::<Seq<char>>::empty());
    assert(spec_tokenize(Seq::<Seq<char>>::empty()) == Seq::<Seq<char>>::empty());
    assert(seq![t].last() == t);
    assert(spec_tokenize(seq![t]) =~= crate::tokenize::spec_split_item(t));
}

/// A two-item argument list tokenizes to the two splits in order.
proof fn lemma_tokenize_two(t1: Seq<char>, t2: Seq<char>)
    ensures
        spec_tokenize(seq![t1, t2]) == crate::tokenize::spec_split_item(t1)
            + crate::tokenize::spec_split_item(t2),
{
    assert(seq![t1, t2].drop_last() =~= seq![t1]);
    lemma_tokenize_one(t1);
    assert(seq![t1, t2].last() == t2);
}

/// The first `=` in `f + '=' + v` is the one appended, when `f` itself
/// holds none.
proof fn lemma_find_eq_at_join(f: Seq<char>, v: Seq<char>)
    requires
        forall|i: int| 0 <= i < f.len() ==> #[trigger] f[i] != '=',
    ensures
        spec_find_eq(f + seq!['='] + v) == f.len(),
{
    let t = f + seq!['='] + v;
    lemma_find_eq(t);
    assert(t[f.len() as int] == '=');
    if spec_find_eq(t) < f.len() {
        assert(t[spec_find_eq(t)] == f[spec_find_eq(t)]);
    }
}

/// The syntaxes `--name=value` and `--name value` produce the same
/// token stream, for any value that is not itself flag-shaped.
pub proof fn lemma_long_flag_value_forms(f: Seq<char>, v: Seq<char>)
    requires
        spec_is_long_flag(f),
        forall|i: int| 0 <= i < f.len() ==> #[trigger] f[i] != '=',
        !spec_is_flag(v),
    ensures
        spec_tokenize(seq![f + seq!['='] + v]) == seq![f, v],
        spec_tokenize(seq![f, v]) == seq![f, v],
{
    let a = f + seq!['='] + v;
    lemma_find_eq_at_join(f, v);
    assert(a.take(f.len() as int) =~= f);
    assert(a.skip(f.len() as int + 1) =~= v);
    lemma_tokenize_one(a);
    assert(crate::tokenize::spec_split_item(a) =~~= seq![f, v]);

    lemma_find_eq(f);
    if spec_find_eq(f) < f.len() {
        assert(f[spec_find_eq(f)] != '=');
    }
    assert(crate::tokenize::spec_split_item(f) =~~= seq![f]);
    assert(crate::tokenize::spec_split_item(v) =~~= seq![v]);
    lemma_tokenize_two(f, v);
    assert(spec_tokenize(seq![f, v]) =~~= seq![f, v]);
}

/// The syntaxes `-x=value`, `-xvalue` and `-x value` produce the same
/// token stream, for a non-empty value that does not begin with `=` and
/// is not itself flag-shaped.
pub proof fn lemma_short_flag_value_forms(c: char, v: Seq<char>)
    requires
        c != '-',
        v.len() >= 1,
        v[0] != '=',
        !spec_is_flag(v),
    ensures
        spec_tokenize(seq![spec_short_alias(c) + seq!['='] + v]) == seq![spec_short_alias(c), v],
        spec_tokenize(seq![spec_short_alias(c) + v]) == seq![spec_short_alias(c), v],
        spec_tokenize(seq![spec_short_alias(c), v]) == seq![spec_short_alias(c), v],
{
    let a = spec_short_alias(c);

    let eq_form = a + seq!['='] + v;
    assert(eq_form.take(2) =~= a);
    assert(eq_form.skip(2).drop_first() =~= v);
    lemma_tokenize_one(eq_form);
    assert(crate::tokenize::spec_split_item(eq_form) =~~= seq![a, v]);

    let attached = a + v;
    assert(attached.take(2) =~= a);
    assert(attached.skip(2) =~= v);
    lemma_tokenize_one(attached);
    assert(crate::tokenize::spec_split_item(attached) =~~= seq![a, v]);

    assert(crate::tokenize::spec_split_item(a) =~~= seq![a]);
    assert(crate::tokenize::spec_split_item(v) =~~= seq![v]);
    lemma_tokenize_two(a, v);
    assert(spec_tokenize(seq![a, v]) =~~= seq![a, v]);
}

/// Round trip: because the syntaxes tokenize alike, resolution treats
/// them alike, so equivalent configurations see the identical coerced
/// value.
pub proof fn lemma_value_syntax_round_trip(cfgs: Seq<ArgConfig>, f: Seq<char>, v: Seq<char>)
    requires
        spec_is_long_flag(f),
        forall|i: int| 0 <= i < f.len() ==> #[trigger] f[i] != '=',
        !spec_is_flag(v),
    ensures
        spec_resolve(cfgs, spec_tokenize(seq![f + seq!['='] + v]), 0, 0, Map::empty())
            == spec_resolve(cfgs, spec_tokenize(seq![f, v]), 0, 0, Map::empty()),
{
    lemma_long_flag_value_forms(f, v);
}

/// Round trip for short flags: `-x=value`, `-xvalue` and `-x value`
/// resolve identically, because they tokenize identically.
pub proof fn lemma_short_syntax_round_trip(cfgs: Seq<ArgConfig>, c: char, v: Seq<char>)
    requires
        c != '-',
        v.len() >= 1,
        v[0] != '=',
        !spec_is_flag(v),
    ensures
        spec_resolve(cfgs, spec_tokenize(seq![spec_short_alias(c) + seq!['='] + v]), 0, 0, Map::empty())
            == spec_resolve(cfgs, spec_tokenize(seq![spec_short_alias(c), v]), 0, 0, Map::empty()),
        spec_resolve(cfgs, spec_tokenize(seq![spec_short_alias(c) + v]), 0, 0, Map::empty())
            == spec_resolve(cfgs, spec_tokenize(seq![spec_short_alias(c), v]), 0, 0, Map::empty()),
{
    lemma_short_flag_value_forms(c, v);
}

/// Characterize the first-missing-required scan: it finds the least
/// index from `i` on of a required declaration without a value.
pub proof fn lemma_first_missing_required(cfgs: Seq<ArgConfig>, acc: Map<Seq<char>, ArgV>, i: int)
    requires
        0 <= i,
    ensures
        match spec_first_missing_required(cfgs, acc, i) {
            Some(j) => i <= j < cfgs.len() && cfgs[j].required && !acc.dom().contains(cfgs[j].name@)
                && forall|l: int|
                i <= l < j ==> !((#[trigger] cfgs[l]).required && !acc.dom().contains(
                    cfgs[l].name@,
                )),
            None => forall|l: int|
                i <= l < cfgs.len() ==> !((#[trigger] cfgs[l]).required && !acc.dom().contains(
                    cfgs[l].name@,
                )),
        },
    decreases cfgs.len() - i,
{
    if i < cfgs.len() && !(cfgs[i].required && !acc.dom().contains(cfgs[i].name@)) {
        lemma_first_missing_required(cfgs, acc, i + 1);
    }
}

/// Characterize default filling: values already accumulated are kept,
/// and every declaration from `i` on that got no value receives its
/// default, provided declared names are distinct.
pub proof fn lemma_apply_defaults(cfgs: Seq<ArgConfig>, acc: Map<Seq<char>, ArgV>, i: int)
    requires
        0 <= i,
        forall|a: int, b: int| 0 <= a < b < cfgs.len() ==> (#[trigger] cfgs[a]).name@ != (
        #[trigger] cfgs[b]).name@,
    ensures
        forall|k: Seq<char>|
            acc.dom().contains(k) ==> #[trigger] spec_apply_defaults(cfgs, acc, i).dom().contains(
                k,
            ) && spec_apply_defaults(cfgs, acc, i)[k] == acc[k],
        forall|j: int|
            i <= j < cfgs.len() ==> spec_apply_defaults(cfgs, acc, i).dom().contains(
                (#[trigger] cfgs[j]).name@,
            ),
        forall|j: int|
            i <= j < cfgs.len() && !acc.dom().contains((#[trigger] cfgs[j]).name@)
                ==> spec_apply_defaults(cfgs, acc, i)[cfgs[j].name@] == spec_default_of(cfgs[j]),
        forall|k: Seq<char>|
            #[trigger] spec_apply_defaults(cfgs, acc, i).dom().contains(k) ==> acc.dom().contains(
                k,
            ) || exists|j: int| i <= j < cfgs.len() && (#[trigger] cfgs[j]).name@ == k,
    decreases cfgs.len() - i,
{
    if i < cfgs.len() {
        let m = spec_apply_defaults(cfgs, acc, i);
        if acc.dom().contains(cfgs[i].name@) {
            lemma_apply_defaults(cfgs, acc, i + 1);
            assert(m.dom().contains(cfgs[i].name@));
            assert forall|k: Seq<char>| acc.dom().contains(k) implies #[trigger] m.dom().contains(
                k,
            ) && m[k] == acc[k] by {
                assert(spec_apply_defaults(cfgs, acc, i + 1).dom().contains(k));
            }
            assert forall|k: Seq<char>| #[trigger] m.dom().contains(k) implies acc.dom().contains(
                k,
            ) || exists|j: int| i <= j < cfgs.len() && (#[trigger] cfgs[j]).name@ == k by {
                if !acc.dom().contains(k) {
                    let j = choose|j: int|
                        i + 1 <= j < cfgs.len() && (#[trigger] cfgs[j]).name@ == k;
                    assert(i <= j < cfgs.len() && cfgs[j].name@ == k);
                }
            }
        } else {
            let acc2 = acc.insert(cfgs[i].name@, spec_default_of(cfgs[i]));
            lemma_apply_defaults(cfgs, acc2, i + 1);
            assert(m == spec_apply_defaults(cfgs, acc2, i + 1));
            assert forall|k: Seq<char>| acc.dom().contains(k) implies #[trigger] m.dom().contains(
                k,
            ) && m[k] == acc[k] by {
                assert(acc2.dom().contains(k) && acc2[k] == acc[k]);
                assert(spec_apply_defaults(cfgs, acc2, i + 1).dom().contains(k));
            }
            assert forall|j: int| i <= j < cfgs.len() implies m.dom().contains(
                (#[trigger] cfgs[j]).name@,
            ) by {
                if j == i {
                    assert(acc2.dom().contains(cfgs[i].name@));
                    assert(m.dom().contains(cfgs[i].name@));
                }
            }
            assert forall|j: int|
                i <= j < cfgs.len() && !acc.dom().contains(
                    (#[trigger] cfgs[j]).name@,
                ) implies m[cfgs[j].name@] == spec_default_of(cfgs[j]) by {
                if j == i {
                    assert(acc2.dom().contains(cfgs[i].name@));
                    assert(acc2[cfgs[i].name@] == spec_default_of(cfgs[i]));
                    assert(m[cfgs[i].name@] == acc2[cfgs[i].name@]);
                } else {
                    assert(cfgs[i].name@ != cfgs[j].name@);
                    assert(!acc2.dom().contains(cfgs[j].name@));
                }
            }
            assert forall|k: Seq<char>| #[trigger] m.dom().contains(k) implies acc.dom().contains(
                k,
            ) || exists|j: int| i <= j < cfgs.len() && (#[trigger] cfgs[j]).name@ == k by {
                if !acc.dom().contains(k) {
                    if acc2.dom().contains(k) {
                        assert(cfgs[i].name@ == k);
                        assert(i <= i < cfgs.len() && cfgs[i].name@ == k);
                    } else {
                        let j = choose|j: int|
                            i + 1 <= j < cfgs.len() && (#[trigger] cfgs[j]).name@ == k;
                        assert(i <= j < cfgs.len() && cfgs[j].name@ == k);
                    }
                }
            }
        }
    }
}

/// Defaults and required-ness: a parse that reaches finalization fails
/// exactly when some required declaration got no value, with the first
/// such name in declaration order; on success, every boolean flag never
/// supplied holds `false`, every other unsupplied declaration is
/// `Absent`, and every supplied value is kept.
pub proof fn lemma_finalize_defaults_and_required(cfgs: Seq<ArgConfig>, acc: Map<Seq<char>, ArgV>)
    requires
        forall|a: int, b: int| 0 <= a < b < cfgs.len() ==> (#[trigger] cfgs[a]).name@ != (
        #[trigger] cfgs[b]).name@,
    ensures
        match spec_finalize(cfgs, acc) {
            OutcomeV::Failed(e) => exists|j: int|
                {
                    &&& 0 <= j < cfgs.len()
                    &&& e == ParserErrorV::MissingRequiredArgument((#[trigger] cfgs[j]).name@)
                    &&& cfgs[j].required
                    &&& !acc.dom().contains(cfgs[j].name@)
                    &&& forall|l: int|
                        0 <= l < j ==> !((#[trigger] cfgs[l]).required && !acc.dom().contains(
                            cfgs[l].name@,
                        ))
                },
            OutcomeV::Done(m) => {
                &&& forall|j: int|
                    0 <= j < cfgs.len() ==> !((#[trigger] cfgs[j]).required
                        && !acc.dom().contains(cfgs[j].name@))
                &&& forall|j: int|
                    0 <= j < cfgs.len() ==> m.dom().contains((#[trigger] cfgs[j]).name@)
                &&& forall|j: int|
                    0 <= j < cfgs.len() && !acc.dom().contains((#[trigger] cfgs[j]).name@)
                        ==> m[cfgs[j].name@] == spec_default_of(cfgs[j])
                &&& forall|k: Seq<char>|
                    acc.dom().contains(k) ==> #[trigger] m.dom().contains(k) && m[k] == acc[k]
            },
            OutcomeV::Help => false,
        },
{
    lemma_first_missing_required(cfgs, acc, 0);
    match spec_first_missing_required(cfgs, acc, 0) {
        Some(j) => {
            assert(0 <= j < cfgs.len() && spec_finalize(cfgs, acc)
                == OutcomeV::Failed(ParserErrorV::MissingRequiredArgument(cfgs[j].name@)));
        },
        None => {
            lemma_apply_defaults(cfgs, acc, 0);
        },
    }
}

/// Coverage: whenever a scanning run ends in `Done`, the result maps
/// every declared name, whatever was accumulated before it started.
pub proof fn lemma_resolve_covers(
    cfgs: Seq<ArgConfig>,
    toks: Seq<Seq<char>>,
    i: int,
    p: int,
    acc: Map<Seq<char>, ArgV>,
)
    requires
        forall|a: int, b: int| 0 <= a < b < cfgs.len() ==> (#[trigger] cfgs[a]).name@ != (
        #[trigger] cfgs[b]).name@,
    ensures
        spec_resolve(cfgs, toks, i, p, acc) matches OutcomeV::Done(m) ==> forall|j: int|
            0 <= j < cfgs.len() ==> m.dom().contains((#[trigger] cfgs[j]).name@),
    decreases toks.len() - i,
{
    if i >= toks.len() {
        lemma_finalize_defaults_and_required(cfgs, acc);
    } else {
        let t = toks[i];
        if t != spec_help_token() {
            if spec_is_flag(t) {
                match spec_find_flag_from(cfgs, t, 0) {
                    None => {},
                    Some(j) => match cfgs[j].arg_type {
                        None => {
                            lemma_resolve_covers(
                                cfgs,
                                toks,
                                i + 1,
                                p,
                                acc.insert(cfgs[j].name@, ArgV::Boolean(true)),
                            );
                        },
                        Some(ty) => {
                            if i + 1 < toks.len() {
                                match crate::values::spec_parse_value(ty, toks[i + 1]) {
                                    Ok(av) => {
                                        lemma_resolve_covers(
                                            cfgs,
                                            toks,
                                            i + 2,
                                            p,
                                            acc.insert(cfgs[j].name@, av),
                                        );
                                    },
                                    Err(_) => {},
                                }
                            }
                        },
                    },
                }
            } else {
                match crate::resolve::spec_next_pos(cfgs, p) {
                    None => {},
                    Some(q) => {
                        match crate::values::spec_parse_value(cfgs[q].arg_type->0, t) {
                            Ok(av) => {
                                lemma_resolve_covers(
                                    cfgs,
                                    toks,
                                    i + 1,
                                    q + 1,
                                    acc.insert(cfgs[q].name@, av),
                                );
                            },
                            Err(_) => {},
                        }
                    },
                }
            }
        }
    }
}

/// Coverage at the parse level: a successful parse produces one value
/// for every declared flag and positional.
pub proof fn lemma_parse_covers(cfgs: Seq<ArgConfig>, args: Seq<Seq<char>>)
    requires
        forall|a: int, b: int| 0 <= a < b < cfgs.len() ==> (#[trigger] cfgs[a]).name@ != (
        #[trigger] cfgs[b]).name@,
    ensures
        crate::resolve::spec_parse(cfgs, args) matches OutcomeV::Done(m) ==> forall|j: int|
            0 <= j < cfgs.len() ==> m.dom().contains((#[trigger] cfgs[j]).name@),
{
    lemma_resolve_covers(cfgs, spec_tokenize(args.drop_first()), 0, 0, Map::empty());
}

/// Help formatting is a pure function of the configuration: rendering
/// the same configuration twice yields the identical text, and the
/// rendering mutates nothing.
pub proof fn lemma_help_idempotent(
    d: Seq<char>,
    cfgs: Seq<ArgConfig>,
    r1: Seq<char>,
    r2: Seq<char>,
)
    requires
        r1 == spec_help(d, cfgs),
        r2 == spec_help(d, cfgs),
    ensures
        r1 == r2,
{
}

} // verus!
