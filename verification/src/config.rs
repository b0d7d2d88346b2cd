//! The configuration model: argument types, flag and positional
//! declarations, and the parser builder with its well-formedness rules.
use vstd::prelude::*;

verus! {

/// The type a flag or positional value is coerced to.  A flag declared
/// without an `ArgType` is boolean (presence or absence only).
#[derive(PartialEq, Eq, Structural, Clone, Copy, Debug)]
pub enum ArgType {
    Character,
    Float,
    Integer,
    String,
}

/// One declaration.  With a short or long spelling it is a flag; with
/// neither spelling it is a positional argument, consumed in declaration
/// order.
#[derive(Debug)]
pub struct ArgConfig {
    pub name: String,
    pub short_flag: Option<char>,
    pub long_flag: Option<String>,
    pub required: bool,
    pub arg_type: Option<ArgType>,
    pub description: String,
}

/// A declaration with at least one spelling: a flag.
pub open spec fn spec_is_flag_cfg(c: ArgConfig) -> bool {
    c.short_flag is Some || c.long_flag is Some
}

/// A declaration with no spelling: a positional argument.
pub open spec fn spec_is_positional_cfg(c: ArgConfig) -> bool {
    c.short_flag is None && c.long_flag is None
}

/// A declaration is self-consistent when a positional carries a value
/// type (a positional cannot be boolean).
pub open spec fn spec_cfg_ok(c: ArgConfig) -> bool {
    spec_is_positional_cfg(c) ==> c.arg_type is Some
}

/// `b`, declared after `a`, does not collide with `a`: distinct names,
/// distinct spellings, and no required positional after an optional one.
pub open spec fn spec_decl_compat(a: ArgConfig, b: ArgConfig) -> bool {
    &&& a.name@ != b.name@
    &&& !(a.short_flag is Some && b.short_flag is Some && a.short_flag->0 == b.short_flag->0)
    &&& !(a.long_flag is Some && b.long_flag is Some && a.long_flag->0@ == b.long_flag->0@)
    &&& (spec_is_positional_cfg(a) && spec_is_positional_cfg(b) && !a.required ==> !b.required)
}

/// Well-formed configuration list: every declaration self-consistent and
/// every later declaration compatible with every earlier one.
pub open spec fn spec_wf_configs(cfgs: Seq<ArgConfig>) -> bool {
    &&& forall|i: int| 0 <= i < cfgs.len() ==> spec_cfg_ok(#[trigger] cfgs[i])
    &&& forall|i: int, j: int|
        0 <= i < j < cfgs.len() ==> spec_decl_compat(#[trigger] cfgs[i], #[trigger] cfgs[j])
}

/// A configuration error: the build is rejected before any parsing.
#[derive(PartialEq, Eq, Structural, Clone, Copy, Debug)]
pub enum ConfigError {
    PositionalWithoutType,
    DuplicateName,
    DuplicateAlias,
    RequiredPositionalAfterOptional,
}

/// The error, if any, that adding declaration `c` to `cfgs` raises.
pub open spec fn spec_add_check(cfgs: Seq<ArgConfig>, c: ArgConfig) -> Option<ConfigError> {
    if !spec_cfg_ok(c) {
        Some(ConfigError::PositionalWithoutType)
    } else if exists|i: int| 0 <= i < cfgs.len() && (#[trigger] cfgs[i]).name@ == c.name@ {
        Some(ConfigError::DuplicateName)
    } else if exists|i: int|
        0 <= i < cfgs.len() && ((#[trigger] cfgs[i]).short_flag is Some && c.short_flag is Some
            && cfgs[i].short_flag->0 == c.short_flag->0 || cfgs[i].long_flag is Some
            && c.long_flag is Some && cfgs[i].long_flag->0@ == c.long_flag->0@) {
        Some(ConfigError::DuplicateAlias)
    } else if spec_is_positional_cfg(c) && c.required && exists|i: int|
        0 <= i < cfgs.len() && spec_is_positional_cfg(#[trigger] cfgs[i]) && !cfgs[i].required {
        Some(ConfigError::RequiredPositionalAfterOptional)
    } else {
        None
    }
}

/// A declaration that passes the checks extends a well-formed
/// configuration into a well-formed one.
pub proof fn lemma_add_preserves_wf(cfgs: Seq<ArgConfig>, c: ArgConfig)
    requires
        spec_wf_configs(cfgs),
        spec_add_check(cfgs, c) is None,
    ensures
        spec_wf_configs(cfgs.push(c)),
{
    let cfgs2 = cfgs.push(c);
    assert forall|i: int, j: int| 0 <= i < j < cfgs2.len() implies spec_decl_compat(
        #[trigger] cfgs2[i],
        #[trigger] cfgs2[j],
    ) by {
        if j == cfgs.len() {
            assert(cfgs2[i] == cfgs[i]);
            assert(cfgs2[j] == c);
        } else {
            assert(cfgs2[i] == cfgs[i]);
            assert(cfgs2[j] == cfgs[j]);
        }
    }
    assert forall|i: int| 0 <= i < cfgs2.len() implies spec_cfg_ok(#[trigger] cfgs2[i]) by {
        if i < cfgs.len() {
            assert(cfgs2[i] == cfgs[i]);
        }
    }
}

/// The parser: a description and the declarations accumulated so far.
/// Once the declarations are in place the value is used read-only.
#[derive(Debug)]
pub struct Parser {
    pub description: String,
    pub configs: Vec<ArgConfig>,
}

impl Parser {
    /// The declarations are well-formed.
    pub open spec fn wf(&self) -> bool {
        spec_wf_configs(self.configs@)
    }

    /// Register a declaration, rejecting it with a `ConfigError` when it
    /// is inconsistent or collides with an earlier one.
    #[verifier::loop_isolation(false)]
    pub fn try_add_flag(
        &mut self,
        name: String,
        long_flag: Option<String>,
        short_flag: Option<char>,
        required: bool,
        arg_type: Option<ArgType>,
        description: String,
    ) -> (r: Result<(), ConfigError>)
        ensures
            ({
                let c = (ArgConfig {
                    name: name,
                    short_flag: short_flag,
                    long_flag: long_flag,
                    required: required,
                    arg_type: arg_type,
                    description: description,
                });
                match r {
                    Ok(()) => spec_add_check(old(self).configs@, c) is None && final(self).configs@
                        == old(self).configs@.push(c) && final(self).description == old(
                        self,
                    ).description,
                    Err(e) => spec_add_check(old(self).configs@, c) == Some(e) && *final(self)
                        == *old(self),
                }
            }),
    {
        let is_positional = long_flag.is_none() && short_flag.is_none();
        if is_positional && arg_type.is_none() {
            return Err(ConfigError::PositionalWithoutType);
        }
        let n = self.configs.len();
        let mut k: usize = 0;
        while k < n
            invariant
                n == self.configs.len(),
                k <= n,
                forall|i: int| 0 <= i < k ==> (#[trigger] self.configs@[i]).name@ != name@,
            decreases n - k,
        {
            if self.configs[k].name.eq(&name) {
                return Err(ConfigError::DuplicateName);
            }
            k += 1;
        }
        let mut k: usize = 0;
        while k < n
            invariant
                n == self.configs.len(),
                k <= n,
                forall|i: int|
                    0 <= i < k ==> !((#[trigger] self.configs@[i]).short_flag is Some
                        && short_flag is Some && self.configs@[i].short_flag->0 == short_flag->0
                        || self.configs@[i].long_flag is Some && long_flag is Some
                        && self.configs@[i].long_flag->0@ == long_flag->0@),
            decreases n - k,
        {
            let cfg = &self.configs[k];
            if let (Some(a), Some(b)) = (&cfg.short_flag, &short_flag) {
                if *a == *b {
                    return Err(ConfigError::DuplicateAlias);
                }
            }
            if let (Some(a), Some(b)) = (&cfg.long_flag, &long_flag) {
                if a.eq(b) {
                    return Err(ConfigError::DuplicateAlias);
                }
            }
            k += 1;
        }
        if is_positional && required {
            let mut k: usize = 0;
            while k < n
                invariant
                    n == self.configs.len(),
                    k <= n,
                    forall|i: int|
                        0 <= i < k ==> !(spec_is_positional_cfg(#[trigger] self.configs@[i])
                            && !self.configs@[i].required),
                decreases n - k,
            {
                let cfg = &self.configs[k];
                if cfg.short_flag.is_none() && cfg.long_flag.is_none() && !cfg.required {
                    return Err(ConfigError::RequiredPositionalAfterOptional);
                }
                k += 1;
            }
        }
        self.configs.push(ArgConfig {
            name: name,
            short_flag: short_flag,
            long_flag: long_flag,
            required: required,
            arg_type: arg_type,
            description: description,
        });
        Ok(())
    }

    /// Fluent declaration: register a flag or, when both spellings are
    /// absent, a positional argument.  The declaration must not collide
    /// with an earlier one.
    pub fn add_flag(
        self,
        name: String,
        long_flag: Option<String>,
        short_flag: Option<char>,
        required: bool,
        arg_type: Option<ArgType>,
        description: String,
    ) -> (r: Self)
        requires
            self.wf(),
            spec_add_check(
                self.configs@,
                (ArgConfig {
                    name: name,
                    short_flag: short_flag,
                    long_flag: long_flag,
                    required: required,
                    arg_type: arg_type,
                    description: description,
                }),
            ) is None,
        ensures
            r.wf(),
            r.configs@ == self.configs@.push(
                (ArgConfig {
                    name: name,
                    short_flag: short_flag,
                    long_flag: long_flag,
                    required: required,
                    arg_type: arg_type,
                    description: description,
                }),
            ),
            r.description == self.description,
    {
        let ghost c = (ArgConfig {
            name: name,
            short_flag: short_flag,
            long_flag: long_flag,
            required: required,
            arg_type: arg_type,
            description: description,
        });
        let ghost orig = self.configs@;
        let mut p = self;
        let res = p.try_add_flag(name, long_flag, short_flag, required, arg_type, description);
        match res {
            Ok(()) => {
                proof {
                    lemma_add_preserves_wf(orig, c);
                }
                p
            },
            Err(_) => vstd::pervasive::unreached(),
        }
    }
}

/// Instantiate a new argument parser with the given description.
pub fn new(description: String) -> (p: Parser)
    ensures
        p.wf(),
        p.description == description,
        p.configs@ == Seq::<ArgConfig>::empty(),
{
    Parser { description: description, configs: Vec::new() }
}

} // verus!
