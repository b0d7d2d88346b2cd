//! The help formatter: a pure function from the configuration to usage
//! text.  Required items appear inline on the usage line and optional
//! ones bracketed; a block per declaration follows.
use vstd::prelude::*;

use crate::config::ArgConfig;
use crate::config::ArgType;
use crate::config::Parser;
use crate::config::spec_is_positional_cfg;
use crate::utils::add_dash_to_short_flag;
use crate::utils::add_dashes_to_long_flag;
use crate::utils::spec_long_alias;
use crate::utils::spec_short_alias;

verus! {

/// The display name of a declared type; a flag without one is boolean.
pub open spec fn spec_type_label(t: Option<ArgType>) -> Seq<char> {
    match t {
        Option::None => "Boolean"@,
        Option::Some(ArgType::Character) => "Character"@,
        Option::Some(ArgType::Float) => "Float"@,
        Option::Some(ArgType::Integer) => "Integer"@,
        Option::Some(ArgType::String) => "String"@,
    }
}

pub fn type_label(t: &Option<ArgType>) -> (r: &'static str)
    ensures
        r@ == spec_type_label(*t),
{
    match t {
        Option::None => "Boolean",
        Option::Some(ArgType::Character) => "Character",
        Option::Some(ArgType::Float) => "Float",
        Option::Some(ArgType::Integer) => "Integer",
        Option::Some(ArgType::String) => "String",
    }
}

/// The spelling a declaration is introduced by: the long alias when it
/// has one, else the short alias, else the bare name of a positional.
pub open spec fn spec_primary_spelling(c: ArgConfig) -> Seq<char> {
    if c.long_flag is Some {
        spec_long_alias(c.long_flag->0@)
    } else if c.short_flag is Some {
        spec_short_alias(c.short_flag->0)
    } else {
        c.name@
    }
}

fn primary_spelling(c: &ArgConfig) -> (r: String)
    ensures
        r@ == spec_primary_spelling(*c),
{
    if let Some(l) = &c.long_flag {
        add_dashes_to_long_flag(l.as_str())
    } else if let Some(s) = &c.short_flag {
        add_dash_to_short_flag(*s)
    } else {
        c.name.clone()
    }
}

/// All spellings of a declaration, short before long.
pub open spec fn spec_spellings(c: ArgConfig) -> Seq<char> {
    if c.short_flag is Some && c.long_flag is Some {
        spec_short_alias(c.short_flag->0) + " "@ + spec_long_alias(c.long_flag->0@)
    } else {
        spec_primary_spelling(c)
    }
}

fn spellings(c: &ArgConfig) -> (r: String)
    ensures
        r@ == spec_spellings(*c),
{
    if c.short_flag.is_some() && c.long_flag.is_some() {
        let mut s = add_dash_to_short_flag(c.short_flag.unwrap());
        s.append(" ");
        if let Some(l) = &c.long_flag {
            let la = add_dashes_to_long_flag(l.as_str());
            s.append(la.as_str());
        }
        proof {
            assert(s@ =~= spec_spellings(*c));
        }
        s
    } else {
        primary_spelling(c)
    }
}

/// How one declaration appears on the usage line.
pub open spec fn spec_usage_piece(c: ArgConfig) -> Seq<char> {
    if spec_is_positional_cfg(c) {
        "<"@ + c.name@ + ":"@ + spec_type_label(c.arg_type) + ">"@
    } else if c.arg_type is Some {
        spec_primary_spelling(c) + "=<"@ + c.name@ + ":"@ + spec_type_label(c.arg_type) + ">"@
    } else {
        spec_primary_spelling(c)
    }
}

fn usage_piece(c: &ArgConfig) -> (r: String)
    ensures
        r@ == spec_usage_piece(*c),
{
    if c.short_flag.is_none() && c.long_flag.is_none() {
        let mut s: String = ("<").to_owned();
        s.append(c.name.as_str());
        s.append(":");
        s.append(type_label(&c.arg_type));
        s.append(">");
        proof {
            assert(s@ =~= spec_usage_piece(*c));
        }
        s
    } else if c.arg_type.is_some() {
        let mut s = primary_spelling(c);
        s.append("=<");
        s.append(c.name.as_str());
        s.append(":");
        s.append(type_label(&c.arg_type));
        s.append(">");
        proof {
            assert(s@ =~= spec_usage_piece(*c));
        }
        s
    } else {
        primary_spelling(c)
    }
}

/// The usage-line entry: required inline, optional bracketed.
pub open spec fn spec_usage_entry(c: ArgConfig) -> Seq<char> {
    if c.required {
        " "@ + spec_usage_piece(c)
    } else {
        " ["@ + spec_usage_piece(c) + "]"@
    }
}

/// The usage-line entries of the first `k` declarations.
pub open spec fn spec_usage_to(cfgs: Seq<ArgConfig>, k: int) -> Seq<char>
    decreases k,
{
    if k <= 0 {
        Seq::empty()
    } else {
        spec_usage_to(cfgs, k - 1) + spec_usage_entry(cfgs[k - 1])
    }
}

/// The descriptive block of one declaration.
pub open spec fn spec_block(c: ArgConfig) -> Seq<char> {
    "\n\t"@ + spec_spellings(c) + " <"@ + c.name@ + ":"@ + spec_type_label(c.arg_type) + ">"@ + (
    if c.required {
        "\n\t\t(required)"@
    } else {
        Seq::empty()
    }) + "\n\t\t"@ + c.description@ + "\n"@
}

fn block(c: &ArgConfig) -> (r: String)
    ensures
        r@ == spec_block(*c),
{
    let mut s: String = ("\n\t").to_owned();
    let sp = spellings(c);
    s.append(sp.as_str());
    s.append(" <");
    s.append(c.name.as_str());
    s.append(":");
    s.append(type_label(&c.arg_type));
    s.append(">");
    if c.required {
        s.append("\n\t\t(required)");
    }
    s.append("\n\t\t");
    s.append(c.description.as_str());
    s.append("\n");
    proof {
        assert(s@ =~= spec_block(*c));
    }
    s
}

/// The blocks of the first `k` declarations.
pub open spec fn spec_blocks_to(cfgs: Seq<ArgConfig>, k: int) -> Seq<char>
    decreases k,
{
    if k <= 0 {
        Seq::empty()
    } else {
        spec_blocks_to(cfgs, k - 1) + spec_block(cfgs[k - 1])
    }
}

/// The whole help text: a function of the configuration alone.
pub open spec fn spec_help(d: Seq<char>, cfgs: Seq<ArgConfig>) -> Seq<char> {
    "\n"@ + d + "\n\nusage: COMMAND [--help]"@ + spec_usage_to(cfgs, cfgs.len() as int)
        + "\n\nArguments:\n\t--help\n\t\tPrint this help page\n"@ + spec_blocks_to(
        cfgs,
        cfgs.len() as int,
    )
}

impl Parser {
    /// Render the help screen for this configuration.
    #[verifier::loop_isolation(false)]
    pub fn format_help(&self) -> (r: String)
        ensures
            r@ == spec_help(self.description@, self.configs@),
    {
        let ghost cfgs = self.configs@;
        let mut out: String = ("\n").to_owned();
        out.append(self.description.as_str());
        out.append("\n\nusage: COMMAND [--help]");
        let ghost head = "\n"@ + self.description@ + "\n\nusage: COMMAND [--help]"@;
        proof {
            assert(out@ =~= head + spec_usage_to(cfgs, 0));
        }
        let mut i: usize = 0;
        while i < self.configs.len()
            invariant
                i <= cfgs.len(),
                out@ == head + spec_usage_to(cfgs, i as int),
            decreases cfgs.len() - i,
        {
            let piece = usage_piece(&self.configs[i]);
            if self.configs[i].required {
                out.append(" ");
            } else {
                out.append(" [");
            }
            out.append(piece.as_str());
            if !self.configs[i].required {
                out.append("]");
            }
            proof {
                assert(out@ =~= head + spec_usage_to(cfgs, i + 1));
            }
            i += 1;
        }
        out.append("\n\nArguments:\n\t--help\n\t\tPrint this help page\n");
        let ghost head2 = head + spec_usage_to(cfgs, cfgs.len() as int)
            + "\n\nArguments:\n\t--help\n\t\tPrint this help page\n"@;
        proof {
            assert(out@ =~= head2 + spec_blocks_to(cfgs, 0));
        }
        let mut i: usize = 0;
        while i < self.configs.len()
            invariant
                i <= cfgs.len(),
                out@ == head2 + spec_blocks_to(cfgs, i as int),
            decreases cfgs.len() - i,
        {
            let b = block(&self.configs[i]);
            out.append(b.as_str());
            proof {
                assert(out@ =~= head2 + spec_blocks_to(cfgs, i + 1));
            }
            i += 1;
        }
        proof {
            assert(out@ =~= spec_help(self.description@, cfgs));
        }
        out
    }
}

} // verus!
