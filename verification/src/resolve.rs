//! The resolver: a state machine that matches tokens against the
//! configuration, consumes values, coerces types, applies defaults and
//! enforces required-ness.  `--help` anywhere in the token stream ends
//! the run with the distinguished `Help` outcome.
use vstd::prelude::*;

use crate::config::ArgConfig;
use crate::config::Parser;
use crate::config::spec_cfg_ok;
use crate::config::spec_is_positional_cfg;
use crate::errors::ParserError;
use crate::errors::ParserErrorV;
use crate::tokenize::spec_tokenize;
use crate::tokenize::tokenize_flag_arg_values;
use crate::utils::add_dash_to_short_flag;
use crate::utils::add_dashes_to_long_flag;
use crate::utils::is_flag;
use crate::utils::spec_is_flag;
use crate::utils::spec_long_alias;
use crate::utils::spec_short_alias;
use crate::values::Arg;
use crate::values::ArgV;
use crate::values::parse_flag_arg_value;
use crate::values::spec_parse_value;

verus! {

/// The reserved help spelling.
pub open spec fn spec_help_token() -> Seq<char> {
    seq!['-', '-', 'h', 'e', 'l', 'p']
}

/// Whether token `t` spells one of the aliases of declaration `c`.
pub open spec fn spec_matches_alias(c: ArgConfig, t: Seq<char>) -> bool {
    ||| (c.long_flag is Some && t == spec_long_alias(c.long_flag->0@))
    ||| (c.short_flag is Some && t == spec_short_alias(c.short_flag->0))
}

/// The first declaration from `i` on whose alias is `t`.
pub open spec fn spec_find_flag_from(cfgs: Seq<ArgConfig>, t: Seq<char>, i: int) -> Option<int>
    decreases cfgs.len() - i,
{
    if i >= cfgs.len() {
        None
    } else if spec_matches_alias(cfgs[i], t) {
        Some(i)
    } else {
        spec_find_flag_from(cfgs, t, i + 1)
    }
}

/// The first positional declaration from `p` on.
pub open spec fn spec_next_pos(cfgs: Seq<ArgConfig>, p: int) -> Option<int>
    decreases cfgs.len() - p,
{
    if p >= cfgs.len() {
        None
    } else if spec_is_positional_cfg(cfgs[p]) {
        Some(p)
    } else {
        spec_next_pos(cfgs, p + 1)
    }
}

/// The default for a declaration that received no input: `false` for a
/// boolean flag, `Absent` for everything else.
pub open spec fn spec_default_of(c: ArgConfig) -> ArgV {
    if c.arg_type is None && !spec_is_positional_cfg(c) {
        ArgV::Boolean(false)
    } else {
        ArgV::Absent
    }
}

/// The first declaration from `i` on that is required but received no
/// input.
pub open spec fn spec_first_missing_required(
    cfgs: Seq<ArgConfig>,
    acc: Map<Seq<char>, ArgV>,
    i: int,
) -> Option<int>
    decreases cfgs.len() - i,
{
    if i >= cfgs.len() {
        None
    } else if cfgs[i].required && !acc.dom().contains(cfgs[i].name@) {
        Some(i)
    } else {
        spec_first_missing_required(cfgs, acc, i + 1)
    }
}

/// The result map with a default filled in for every declaration from
/// `i` on that received no input.
pub open spec fn spec_apply_defaults(
    cfgs: Seq<ArgConfig>,
    acc: Map<Seq<char>, ArgV>,
    i: int,
) -> Map<Seq<char>, ArgV>
    decreases cfgs.len() - i,
{
    if i >= cfgs.len() {
        acc
    } else if acc.dom().contains(cfgs[i].name@) {
        spec_apply_defaults(cfgs, acc, i + 1)
    } else {
        spec_apply_defaults(cfgs, acc.insert(cfgs[i].name@, spec_default_of(cfgs[i])), i + 1)
    }
}

/// The mathematical form of a parse outcome.
pub enum OutcomeV {
    Done(Map<Seq<char>, ArgV>),
    Help,
    Failed(ParserErrorV),
}

/// Finalization: fail on the first required declaration still without a
/// value, in declaration order; otherwise fill in defaults and succeed.
pub open spec fn spec_finalize(cfgs: Seq<ArgConfig>, acc: Map<Seq<char>, ArgV>) -> OutcomeV {
    match spec_first_missing_required(cfgs, acc, 0) {
        Some(j) => OutcomeV::Failed(ParserErrorV::MissingRequiredArgument(cfgs[j].name@)),
        None => OutcomeV::Done(spec_apply_defaults(cfgs, acc, 0)),
    }
}

/// One scanning run of the resolver over the token stream from `i` on,
/// with positional cursor `p` and the values accumulated so far.
pub open spec fn spec_resolve(
    cfgs: Seq<ArgConfig>,
    toks: Seq<Seq<char>>,
    i: int,
    p: int,
    acc: Map<Seq<char>, ArgV>,
) -> OutcomeV
    decreases toks.len() - i,
{
    if i >= toks.len() {
        spec_finalize(cfgs, acc)
    } else {
        let t = toks[i];
        if t == spec_help_token() {
            OutcomeV::Help
        } else if spec_is_flag(t) {
            match spec_find_flag_from(cfgs, t, 0) {
                None => OutcomeV::Failed(ParserErrorV::UnknownFlag(t)),
                Some(j) => match cfgs[j].arg_type {
                    None => spec_resolve(
                        cfgs,
                        toks,
                        i + 1,
                        p,
                        acc.insert(cfgs[j].name@, ArgV::Boolean(true)),
                    ),
                    Some(ty) => if i + 1 >= toks.len() {
                        OutcomeV::Failed(ParserErrorV::MissingArgumentValue(t))
                    } else {
                        match spec_parse_value(ty, toks[i + 1]) {
                            Ok(av) => spec_resolve(
                                cfgs,
                                toks,
                                i + 2,
                                p,
                                acc.insert(cfgs[j].name@, av),
                            ),
                            Err(e) => OutcomeV::Failed(e),
                        }
                    },
                },
            }
        } else {
            match spec_next_pos(cfgs, p) {
                None => OutcomeV::Failed(ParserErrorV::TooManyPositionalArguments(t)),
                Some(q) => match spec_parse_value(cfgs[q].arg_type->0, t) {
                    Ok(av) => spec_resolve(cfgs, toks, i + 1, q + 1, acc.insert(cfgs[q].name@, av)),
                    Err(e) => OutcomeV::Failed(e),
                },
            }
        }
    }
}

/// The outcome of a whole parse: the first raw argument is the command
/// name, consumed without interpretation; the rest is tokenized and
/// resolved from an empty state.
pub open spec fn spec_parse(cfgs: Seq<ArgConfig>, args: Seq<Seq<char>>) -> OutcomeV {
    spec_resolve(cfgs, spec_tokenize(args.drop_first()), 0, 0, Map::empty())
}

/// The name-to-value map that an entry list denotes; a later entry for
/// the same name wins.
pub open spec fn spec_assoc_map(s: Seq<(String, Arg)>) -> Map<Seq<char>, ArgV>
    decreases s.len(),
{
    if s.len() == 0 {
        Map::empty()
    } else {
        spec_assoc_map(s.drop_last()).insert(s.last().0@, s.last().1@)
    }
}

/// A name is in the map exactly when some entry carries it.
pub proof fn lemma_assoc_map_contains(s: Seq<(String, Arg)>, k: Seq<char>)
    ensures
        spec_assoc_map(s).dom().contains(k) <==> exists|i: int|
            0 <= i < s.len() && (#[trigger] s[i]).0@ == k,
    decreases s.len(),
{
    if s.len() > 0 {
        lemma_assoc_map_contains(s.drop_last(), k);
        if s.last().0@ == k {
            assert(s[s.len() - 1].0@ == k);
        } else {
            assert forall|i: int| 0 <= i < s.len() && (#[trigger] s[i]).0@ == k implies
                spec_assoc_map(s).dom().contains(k) by {
                assert(s.drop_last()[i] == s[i]);
            }
            if spec_assoc_map(s).dom().contains(k) {
                let i = choose|i: int| 0 <= i < s.drop_last().len() && (#[trigger] s.drop_last()[
                    i
                ]).0@ == k;
                assert(s[i] == s.drop_last()[i]);
            }
        }
    }
}

/// The immutable result of a successful parse: one value for every
/// declared name.
#[derive(Debug)]
pub struct ParseResult {
    entries: Vec<(String, Arg)>,
}

impl View for ParseResult {
    type V = Map<Seq<char>, ArgV>;

    closed spec fn view(&self) -> Map<Seq<char>, ArgV> {
        spec_assoc_map(self.entries@)
    }
}

impl ParseResult {
    /// Retrieve the parsed value recorded under `name`.
    #[verifier::loop_isolation(false)]
    pub fn get_arg(&self, name: &str) -> (r: Option<&Arg>)
        ensures
            match r {
                Some(a) => self@.dom().contains(name@) && a@ == self@[name@],
                None => !self@.dom().contains(name@),
            },
    {
        let key: String = name.to_owned();
        let mut i: usize = self.entries.len();
        proof {
            assert(self.entries@.take(i as int) =~= self.entries@);
        }
        while i > 0
            invariant
                i <= self.entries@.len(),
                self@.dom().contains(name@) == spec_assoc_map(
                    self.entries@.take(i as int),
                ).dom().contains(name@),
                self@.dom().contains(name@) ==> self@[name@] == spec_assoc_map(
                    self.entries@.take(i as int),
                )[name@],
            decreases i,
        {
            proof {
                assert(self.entries@.take(i as int).drop_last() =~= self.entries@.take(i - 1));
                assert(self.entries@.take(i as int).last() == self.entries@[i - 1]);
            }
            if self.entries[i - 1].0.eq(&key) {
                return Some(&self.entries[i - 1].1);
            }
            i -= 1;
        }
        proof {
            assert(self.entries@.take(0) =~= Seq::<(String, Arg)>::empty());
        }
        None
    }

    /// The boolean recorded under `name`, when there is one.
    pub fn get_bool_arg(&self, name: &str) -> (r: Option<bool>)
        ensures
            match r {
                Some(b) => self@.dom().contains(name@) && self@[name@] == ArgV::Boolean(b),
                None => !(self@.dom().contains(name@) && self@[name@] is Boolean),
            },
    {
        match self.get_arg(name) {
            Some(Arg::Boolean(b)) => Some(*b),
            _ => None,
        }
    }

    /// The integer recorded under `name`, when there is one.
    pub fn get_integer_arg(&self, name: &str) -> (r: Option<i32>)
        ensures
            match r {
                Some(v) => self@.dom().contains(name@) && self@[name@] == ArgV::Integer(v),
                None => !(self@.dom().contains(name@) && self@[name@] is Integer),
            },
    {
        match self.get_arg(name) {
            Some(Arg::Integer(v)) => Some(*v),
            _ => None,
        }
    }

    /// The string recorded under `name`, when there is one.
    pub fn get_string_arg(&self, name: &str) -> (r: Option<&str>)
        ensures
            match r {
                Some(s) => self@.dom().contains(name@) && self@[name@] == ArgV::String(s@),
                None => !(self@.dom().contains(name@) && self@[name@] is String),
            },
    {
        match self.get_arg(name) {
            Some(Arg::String(s)) => Some(s.as_str()),
            _ => None,
        }
    }

    /// The accepted float text recorded under `name`, when there is one.
    pub fn get_float_arg(&self, name: &str) -> (r: Option<&str>)
        ensures
            match r {
                Some(s) => self@.dom().contains(name@) && self@[name@] == ArgV::Float(s@),
                None => !(self@.dom().contains(name@) && self@[name@] is Float),
            },
    {
        match self.get_arg(name) {
            Some(Arg::Float(s)) => Some(s.as_str()),
            _ => None,
        }
    }
}

/// The outcome of one parse: a result set, a help request, or the first
/// error.
#[derive(Debug)]
pub enum ParseOutcome {
    Done(ParseResult),
    Help,
    Failed(ParserError),
}

impl View for ParseOutcome {
    type V = OutcomeV;

    open spec fn view(&self) -> OutcomeV {
        match self {
            ParseOutcome::Done(res) => OutcomeV::Done(res@),
            ParseOutcome::Help => OutcomeV::Help,
            ParseOutcome::Failed(e) => OutcomeV::Failed(e@),
        }
    }
}

fn is_help_token(t: &String) -> (r: bool)
    ensures
        r == (t@ == spec_help_token()),
{
    proof {
        reveal_strlit("--help");
        assert(("--help")@ =~= spec_help_token());
    }
    let h: String = ("--help").to_owned();
    t.eq(&h)
}

/// Look the token up among the declared aliases.
#[verifier::loop_isolation(false)]
fn find_flag(configs: &Vec<ArgConfig>, t: &String) -> (r: Option<usize>)
    ensures
        match r {
            Some(j) => j < configs@.len() && spec_find_flag_from(configs@, t@, 0) == Some(j as int),
            None => spec_find_flag_from(configs@, t@, 0) is None,
        },
{
    let mut j: usize = 0;
    while j < configs.len()
        invariant
            j <= configs@.len(),
            spec_find_flag_from(configs@, t@, 0) == spec_find_flag_from(configs@, t@, j as int),
        decreases configs@.len() - j,
    {
        let cfg = &configs[j];
        let mut matched = false;
        if let Some(l) = &cfg.long_flag {
            let alias = add_dashes_to_long_flag(l.as_str());
            if t.eq(&alias) {
                matched = true;
            }
        }
        if !matched {
            if let Some(sc) = &cfg.short_flag {
                let alias = add_dash_to_short_flag(*sc);
                if t.eq(&alias) {
                    matched = true;
                }
            }
        }
        proof {
            assert(matched == spec_matches_alias(configs@[j as int], t@));
        }
        if matched {
            return Some(j);
        }
        j += 1;
    }
    None
}

/// Advance the positional cursor to the next positional declaration.
#[verifier::loop_isolation(false)]
fn next_positional(configs: &Vec<ArgConfig>, p: usize) -> (r: Option<usize>)
    requires
        p <= configs@.len(),
    ensures
        match r {
            Some(q) => p <= q < configs@.len() && spec_next_pos(configs@, p as int) == Some(
                q as int,
            ) && spec_is_positional_cfg(configs@[q as int]),
            None => spec_next_pos(configs@, p as int) is None,
        },
{
    let mut q: usize = p;
    while q < configs.len()
        invariant
            p <= q,
            q <= configs@.len(),
            spec_next_pos(configs@, p as int) == spec_next_pos(configs@, q as int),
        decreases configs@.len() - q,
    {
        let cfg = &configs[q];
        if cfg.short_flag.is_none() && cfg.long_flag.is_none() {
            return Some(q);
        }
        q += 1;
    }
    None
}

/// Whether some entry already carries `name`.
#[verifier::loop_isolation(false)]
fn entries_contain(entries: &Vec<(String, Arg)>, name: &String) -> (r: bool)
    ensures
        r == spec_assoc_map(entries@).dom().contains(name@),
{
    proof {
        lemma_assoc_map_contains(entries@, name@);
    }
    let mut i: usize = 0;
    while i < entries.len()
        invariant
            i <= entries@.len(),
            forall|k: int| 0 <= k < i ==> (#[trigger] entries@[k]).0@ != name@,
        decreases entries@.len() - i,
    {
        if entries[i].0.eq(name) {
            return true;
        }
        i += 1;
    }
    false
}

/// Finalization: check required declarations in declaration order, then
/// fill in defaults for everything that received no input.
#[verifier::loop_isolation(false)]
fn validate_flags(configs: &Vec<ArgConfig>, entries: Vec<(String, Arg)>) -> (r: Result<
    Vec<(String, Arg)>,
    ParserError,
>)
    ensures
        match r {
            Ok(es) => spec_finalize(configs@, spec_assoc_map(entries@)) == OutcomeV::Done(
                spec_assoc_map(es@),
            ),
            Err(e) => spec_finalize(configs@, spec_assoc_map(entries@)) == OutcomeV::Failed(e@),
        },
{
    let ghost acc0 = spec_assoc_map(entries@);
    let mut k: usize = 0;
    while k < configs.len()
        invariant
            k <= configs@.len(),
            spec_first_missing_required(configs@, acc0, 0) == spec_first_missing_required(
                configs@,
                acc0,
                k as int,
            ),
        decreases configs@.len() - k,
    {
        let cfg = &configs[k];
        let present = entries_contain(&entries, &cfg.name);
        if cfg.required && !present {
            return Err(ParserError::MissingRequiredArgument(cfg.name.clone()));
        }
        k += 1;
    }
    let mut es = entries;
    let mut k: usize = 0;
    while k < configs.len()
        invariant
            k <= configs@.len(),
            spec_apply_defaults(configs@, acc0, 0) == spec_apply_defaults(
                configs@,
                spec_assoc_map(es@),
                k as int,
            ),
        decreases configs@.len() - k,
    {
        let cfg = &configs[k];
        let present = entries_contain(&es, &cfg.name);
        if !present {
            let ghost before = es@;
            let is_bool_flag = cfg.arg_type.is_none() && (cfg.short_flag.is_some()
                || cfg.long_flag.is_some());
            let dv = if is_bool_flag {
                Arg::Boolean(false)
            } else {
                Arg::Absent
            };
            proof {
                assert(dv@ == spec_default_of(configs@[k as int]));
            }
            es.push((cfg.name.clone(), dv));
            proof {
                assert(es@.drop_last() =~= before);
            }
        }
        k += 1;
    }
    Ok(es)
}

impl Parser {
    /// Parse the raw arguments: the first entry is the command name and
    /// is consumed without interpretation; the rest is tokenized,
    /// resolved against the configuration, and finalized.
    #[verifier::loop_isolation(false)]
    pub fn parse(&self, input_args: Vec<String>) -> (r: ParseOutcome)
        requires
            self.wf(),
            input_args@.len() >= 1,
        ensures
            r@ == spec_parse(self.configs@, input_args.deep_view()),
    {
        let toks = tokenize_flag_arg_values(&input_args, 1);
        let ghost tv = toks.deep_view();
        let ghost target = spec_parse(self.configs@, input_args.deep_view());
        proof {
            assert(input_args.deep_view().skip(1) =~= input_args.deep_view().drop_first());
            assert(target == spec_resolve(self.configs@, tv, 0, 0, Map::empty()));
        }
        let mut entries: Vec<(String, Arg)> = Vec::new();
        let mut i: usize = 0;
        let mut p: usize = 0;
        proof {
            assert(spec_assoc_map(entries@) =~= Map::<Seq<char>, ArgV>::empty());
        }
        while i < toks.len()
            invariant
                i <= tv.len(),
                p <= self.configs@.len(),
                spec_resolve(self.configs@, tv, i as int, p as int, spec_assoc_map(entries@))
                    == target,
            decreases tv.len() - i,
        {
            let t = &toks[i];
            proof {
                assert(t@ == tv[i as int]);
            }
            if is_help_token(t) {
                return ParseOutcome::Help;
            }
            if is_flag(t.as_str()) {
                match find_flag(&self.configs, t) {
                    None => {
                        return ParseOutcome::Failed(ParserError::UnknownFlag(t.clone()));
                    },
                    Some(j) => {
                        let name = self.configs[j].name.clone();
                        let at = self.configs[j].arg_type;
                        match at {
                            None => {
                                let ghost before = entries@;
                                entries.push((name, Arg::Boolean(true)));
                                proof {
                                    assert(entries@.drop_last() =~= before);
                                }
                                i += 1;
                            },
                            Some(ty) => {
                                if i + 1 >= toks.len() {
                                    return ParseOutcome::Failed(
                                        ParserError::MissingArgumentValue(t.clone()),
                                    );
                                }
                                let v = &toks[i + 1];
                                proof {
                                    assert(v@ == tv[i + 1]);
                                }
                                match parse_flag_arg_value(&ty, v.as_str()) {
                                    Ok(a) => {
                                        let ghost before = entries@;
                                        entries.push((name, a));
                                        proof {
                                            assert(entries@.drop_last() =~= before);
                                        }
                                        i += 2;
                                    },
                                    Err(e) => {
                                        return ParseOutcome::Failed(e);
                                    },
                                }
                            },
                        }
                    },
                }
            } else {
                match next_positional(&self.configs, p) {
                    None => {
                        return ParseOutcome::Failed(
                            ParserError::TooManyPositionalArguments(t.clone()),
                        );
                    },
                    Some(q) => {
                        let nconf = self.configs.len();
                        proof {
                            assert(q < nconf);
                        }
                        let name = self.configs[q].name.clone();
                        let at = self.configs[q].arg_type;
                        match at {
                            Some(ty) => {
                                match parse_flag_arg_value(&ty, t.as_str()) {
                                    Ok(a) => {
                                        let ghost before = entries@;
                                        entries.push((name, a));
                                        proof {
                                            assert(entries@.drop_last() =~= before);
                                        }
                                        p = q + 1;
                                        i += 1;
                                    },
                                    Err(e) => {
                                        return ParseOutcome::Failed(e);
                                    },
                                }
                            },
                            None => {
                                proof {
                                    assert(spec_cfg_ok(self.configs@[q as int]));
                                    assert(spec_is_positional_cfg(self.configs@[q as int]));
                                    assert(false);
                                }
                                vstd::pervasive::unreached()
                            },
                        }
                    },
                }
            }
        }
        match validate_flags(&self.configs, entries) {
            Ok(es) => ParseOutcome::Done(ParseResult { entries: es }),
            Err(e) => ParseOutcome::Failed(e),
        }
    }
}

} // verus!
