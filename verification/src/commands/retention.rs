//! Showing and changing the retention policy.
use crate::config::RetentionPolicy;
use crate::error::LazarusError;
use crate::storage::backend::RetentionMode;
use crate::text::concat2;
use crate::text::concat3;
use crate::text::copy_text;
use crate::text::decimal;
use crate::text::decimal_string;
use crate::text::push_text;
use crate::text::texts;
use vstd::prelude::*;

verus! {

/// How strictly retention is enforced.
#[derive(Debug, Clone, Copy, PartialEq, Eq, Structural)]
pub enum RetentionModeArg {
    Governance,
    Compliance,
}

impl RetentionModeArg {
    pub open spec fn meaning(self) -> RetentionMode {
        match self {
            RetentionModeArg::Governance => RetentionMode::Governance,
            RetentionModeArg::Compliance => RetentionMode::Compliance,
        }
    }

    /// The mode that the argument stands for.
    pub fn mode(self) -> (out: RetentionMode)
        ensures
            out == self.meaning(),
    {
        match self {
            RetentionModeArg::Governance => RetentionMode::Governance,
            RetentionModeArg::Compliance => RetentionMode::Compliance,
        }
    }

    /// The argument for a mode.
    pub fn of_mode(mode: RetentionMode) -> (out: Self)
        ensures
            out.meaning() == mode,
    {
        match mode {
            RetentionMode::Governance => RetentionModeArg::Governance,
            RetentionMode::Compliance => RetentionModeArg::Compliance,
        }
    }

    /// The name of the mode.
    pub fn name(self) -> (out: &'static str)
        ensures
            out@ == match self {
                RetentionModeArg::Governance => "governance"@,
                RetentionModeArg::Compliance => "compliance"@,
            },
    {
        match self {
            RetentionModeArg::Governance => "governance",
            RetentionModeArg::Compliance => "compliance",
        }
    }
}

/// What the user asked to change.
pub struct RetentionArgs {
    pub repository: String,
    pub enable: bool,
    pub disable: bool,
    pub mode: Option<RetentionModeArg>,
    pub min_retention_days: Option<u32>,
    pub legal_hold: Option<bool>,
    pub local_immutability: Option<bool>,
}

/// The policy after a change.
pub open spec fn changed_policy(policy: RetentionPolicy, args: RetentionArgs) -> RetentionPolicy {
    RetentionPolicy {
        enabled: if args.disable {
            false
        } else {
            args.enable || policy.enabled
        },
        mode: match args.mode {
            Some(m) => m.meaning(),
            None => policy.mode,
        },
        min_retention_days: match args.min_retention_days {
            Some(n) => n,
            None => policy.min_retention_days,
        },
        legal_hold: match args.legal_hold {
            Some(b) => b,
            None => policy.legal_hold,
        },
        local_immutability: match args.local_immutability {
            Some(b) => b,
            None => policy.local_immutability,
        },
    }
}

/// Whether anything is to be changed.
pub open spec fn asks_for_change(args: RetentionArgs) -> bool {
    args.enable || args.disable || args.mode is Some || args.min_retention_days is Some
        || args.legal_hold is Some || args.local_immutability is Some
}

/// Changes a policy. Whether it has to be saved.
pub fn apply_retention(policy: &mut RetentionPolicy, args: &RetentionArgs) -> (out: Result<
    bool,
    LazarusError,
>)
    ensures
        out is Err <==> args.enable && args.disable,
        match out {
            Ok(modified) => modified == asks_for_change(*args) && *final(policy) == changed_policy(
                *old(policy),
                *args,
            ),
            Err(e) => {
                &&& *final(policy) == *old(policy)
                &&& e is Storage
                &&& e.detail() == "--enable and --disable cannot be used together"@
            },
        },
{
    if args.enable && args.disable {
        return Err(
            LazarusError::Storage(copy_text("--enable and --disable cannot be used together")),
        );
    }
    let mut modified = false;
    if args.enable {
        policy.enabled = true;
        modified = true;
    }
    if args.disable {
        policy.enabled = false;
        modified = true;
    }
    if let Some(mode) = args.mode {
        policy.mode = mode.mode();
        modified = true;
    }
    if let Some(days) = args.min_retention_days {
        policy.min_retention_days = days;
        modified = true;
    }
    if let Some(hold) = args.legal_hold {
        policy.legal_hold = hold;
        modified = true;
    }
    if let Some(local) = args.local_immutability {
        policy.local_immutability = local;
        modified = true;
    }
    Ok(modified)
}

/// A change that asks for nothing changes nothing.
pub proof fn no_change_keeps_the_policy(policy: RetentionPolicy, args: RetentionArgs)
    requires
        !asks_for_change(args),
    ensures
        changed_policy(policy, args) == policy,
{
}

pub open spec fn bool_text(b: bool) -> Seq<char> {
    if b {
        "true"@
    } else {
        "false"@
    }
}

fn bool_word(b: bool) -> (out: &'static str)
    ensures
        out@ == bool_text(b),
{
    if b {
        "true"
    } else {
        "false"
    }
}

/// The lines that show a policy.
pub fn policy_lines(policy: &RetentionPolicy) -> (out: Vec<String>)
    ensures
        texts(out@) == seq![
            "  Enabled: "@ + bool_text(policy.enabled),
            "  Mode: "@ + (match policy.mode {
                RetentionMode::Governance => "governance"@,
                RetentionMode::Compliance => "compliance"@,
            }),
            if policy.min_retention_days == 0 {
                "  Minimum retention: disabled"@
            } else {
                "  Minimum retention: "@ + decimal(policy.min_retention_days as nat) + " day(s)"@
            },
            "  Legal hold: "@ + bool_text(policy.legal_hold),
            "  Local immutability: "@ + bool_text(policy.local_immutability),
        ],
{
    let mut out: Vec<String> = Vec::new();
    assert(texts(out@) =~= Seq::<Seq<char>>::empty());
    push_text(&mut out, concat2("  Enabled: ", bool_word(policy.enabled)).as_str());
    let mode = RetentionModeArg::of_mode(policy.mode);
    push_text(&mut out, concat2("  Mode: ", mode.name()).as_str());
    if policy.min_retention_days == 0 {
        push_text(&mut out, "  Minimum retention: disabled");
    } else {
        let days = decimal_string(policy.min_retention_days as u64);
        push_text(
            &mut out,
            concat3("  Minimum retention: ", days.as_str(), " day(s)").as_str(),
        );
    }
    push_text(&mut out, concat2("  Legal hold: ", bool_word(policy.legal_hold)).as_str());
    push_text(
        &mut out,
        concat2("  Local immutability: ", bool_word(policy.local_immutability)).as_str(),
    );
    out
}

/// Each setting of a policy is what was asked for, and stays where nothing was. To disable wins
/// over to enable.
pub proof fn settings_change_as_asked(policy: RetentionPolicy, args: RetentionArgs)
    ensures
        ({
            let new = changed_policy(policy, args);
            &&& args.disable ==> !new.enabled
            &&& args.enable && !args.disable ==> new.enabled
            &&& !args.enable && !args.disable ==> new.enabled == policy.enabled
            &&& args.mode == Some(RetentionModeArg::Governance) ==> new.mode
                == RetentionMode::Governance
            &&& args.mode == Some(RetentionModeArg::Compliance) ==> new.mode
                == RetentionMode::Compliance
            &&& args.mode is None ==> new.mode == policy.mode
            &&& args.min_retention_days matches Some(n) ==> new.min_retention_days == n
            &&& args.min_retention_days is None ==> new.min_retention_days
                == policy.min_retention_days
            &&& args.legal_hold matches Some(b) ==> new.legal_hold == b
            &&& args.legal_hold is None ==> new.legal_hold == policy.legal_hold
            &&& args.local_immutability matches Some(b) ==> new.local_immutability == b
            &&& args.local_immutability is None ==> new.local_immutability
                == policy.local_immutability
        }),
        asks_for_change(args) <==> !(!args.enable && !args.disable && args.mode is None
            && args.min_retention_days is None && args.legal_hold is None
            && args.local_immutability is None),
{
}

/// Whether a setting is on or off is told by the words for it.
pub proof fn settings_are_told_in_words()
    ensures
        forall|b: bool| #[trigger] bool_text(b) == if b { "true"@ } else { "false"@ },
        bool_text(true) != bool_text(false),
{
    reveal_strlit("true");
    reveal_strlit("false");
    assert(bool_text(true).len() != bool_text(false).len());
}

} // verus!
