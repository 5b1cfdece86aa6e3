//! The names by which the agents, their programs and their files go. Those of the first
//! agent are settings of the program; those of the second are fixed.

use crate::json::{json_in_text, json_view, read_text, text_at, Json, JsonView};
use vstd::prelude::*;

verus! {

/// The names of the first agent.
#[derive(Clone, Debug)]
pub struct AgentNames {
    /// What it is called on screen.
    pub label: String,
    /// Its program.
    pub program: String,
    /// The folder in the home directory where it keeps its own.
    pub home: String,
    /// The policy file that it reads.
    pub policy: String,
}

/// The names of the first agent over text.
#[verifier::ext_equal]
pub struct AgentNamesView {
    pub label: Seq<char>,
    pub program: Seq<char>,
    pub home: Seq<char>,
    pub policy: Seq<char>,
}

impl DeepView for AgentNames {
    type V = AgentNamesView;

    open spec fn deep_view(&self) -> AgentNamesView {
        AgentNamesView {
            label: self.label@,
            program: self.program@,
            home: self.home@,
            policy: self.policy@,
        }
    }
}

/// The names where no settings give others.
pub open spec fn standard_names() -> AgentNamesView {
    AgentNamesView { label: "Agent"@, program: "agent"@, home: ".agent"@, policy: "AGENT.md"@ }
}

impl AgentNames {
    /// The names where no settings give others.
    pub fn standard() -> (r: AgentNames)
        ensures
            r.deep_view() == standard_names(),
    {
        AgentNames {
            label: "Agent".to_owned(),
            program: "agent".to_owned(),
            home: ".agent".to_owned(),
            policy: "AGENT.md".to_owned(),
        }
    }
}

/// The names that the settings `j` hold: an object with a text for each.
pub open spec fn names_of(j: JsonView) -> Option<AgentNamesView> {
    match (
        text_at(j, "label"@),
        text_at(j, "program"@),
        text_at(j, "home"@),
        text_at(j, "policy"@),
    ) {
        (Some(label), Some(program), Some(home), Some(policy)) => Some(
            AgentNamesView { label, program, home, policy },
        ),
        _ => None,
    }
}

/// The names that settings hold, where they hold all of them.
pub fn names_in(j: &Json) -> (r: Option<AgentNames>)
    ensures
        r.deep_view() == names_of(json_view(*j)),
{
    match (j.str_at("label"), j.str_at("program"), j.str_at("home"), j.str_at("policy")) {
        (Some(label), Some(program), Some(home), Some(policy)) => Some(
            AgentNames {
                label: label.clone(),
                program: program.clone(),
                home: home.clone(),
                policy: policy.clone(),
            },
        ),
        _ => None,
    }
}

/// The names in the text of the settings, where it is JSON and holds all of them; the standard
/// ones where there are no settings.
pub fn read_names(settings: Option<&str>) -> (r: Option<AgentNames>)
    ensures
        r.deep_view() == match settings {
            Some(text) => match json_in_text(text@) {
                Some(j) => names_of(j),
                None => None,
            },
            None => Some(standard_names()),
        },
{
    match settings {
        Some(text) => match read_text(text) {
            Some(j) => names_in(&j),
            None => None,
        },
        None => Some(AgentNames::standard()),
    }
}

/// What the second agent is called on screen.
pub const CODEX_LABEL: &'static str = "Codex";

/// The program of the second agent.
pub const CODEX_PROGRAM: &'static str = "codex";

/// The folder in the home directory where the second agent keeps its own.
pub const CODEX_HOME: &'static str = ".codex";

/// The policy file that the second agent reads.
pub const CODEX_POLICY: &'static str = "AGENTS.md";

} // verus!
