//! The window-rule lines emitted for a selected window, in the compositor's
//! configuration syntax, and the command-line shape that asks for them.
use vstd::prelude::*;

verus! {

/// How a rule asks the compositor to lay the window out.
#[derive(Clone, Copy, Debug, PartialEq, Eq, Structural)]
pub enum WindowMode {
    Tile,
    Float,
}

/// A property that a rule matches windows on.
#[derive(Clone, Debug)]
pub enum Parameter {
    Class(String),
    Title(String),
    InitialClass(String),
    InitialTitle(String),
}

/// A rule: one mode for the windows that match every parameter.
#[derive(Debug)]
pub struct WindowRule {
    pub mode: WindowMode,
    pub parameters: Vec<Parameter>,
}

/// The command line.
#[derive(Debug)]
pub struct Cli {
    /// Optional name to operate on.
    pub name: Option<String>,
    /// Display version info.
    pub version: bool,
    /// How many times debugging was asked for.
    pub debug: u8,
    pub command: Option<Commands>,
}

/// The subcommands.
#[derive(Clone, Copy, Debug, PartialEq, Eq, Structural)]
pub enum Commands {
    /// Pick a window and print rules for it.
    Generate { float: bool, persistentsize: bool, tile: bool, fullscreen: bool },
}

/// The keyword of a mode.
pub open spec fn mode_text(m: WindowMode) -> Seq<char> {
    match m {
        WindowMode::Float => "float"@,
        WindowMode::Tile => "tile"@,
    }
}

/// The key that the configuration writes before a parameter's value, colon included.
pub open spec fn parameter_key(p: Parameter) -> Seq<char> {
    match p {
        Parameter::Class(_) => "class:"@,
        Parameter::Title(_) => "title:"@,
        Parameter::InitialClass(_) => "initialClass:"@,
        Parameter::InitialTitle(_) => "initialTitle:"@,
    }
}

/// The value a parameter matches on.
pub open spec fn parameter_value(p: Parameter) -> Seq<char> {
    match p {
        Parameter::Class(v) => v@,
        Parameter::Title(v) => v@,
        Parameter::InitialClass(v) => v@,
        Parameter::InitialTitle(v) => v@,
    }
}

/// A parameter as the configuration writes it: its key, then its value.
pub open spec fn parameter_text(p: Parameter) -> Seq<char> {
    parameter_key(p) + parameter_value(p)
}

/// The first `n` parameters, one per line.
pub open spec fn parameters_text(ps: Seq<Parameter>, n: int) -> Seq<char>
    decreases n,
{
    if n <= 0 {
        Seq::empty()
    } else if n == 1 {
        parameter_text(ps[0])
    } else {
        parameters_text(ps, n - 1) + "\n"@ + parameter_text(ps[n - 1])
    }
}

/// `windowrule = <mode>, <parameters>`.
pub open spec fn rule_text(mode: WindowMode, ps: Seq<Parameter>) -> Seq<char> {
    "windowrule = "@ + mode_text(mode) + ", "@ + parameters_text(ps, ps.len() as int)
}

/// The rule for windows first titled `title`.
pub open spec fn title_rule(mode: WindowMode, title: Seq<char>) -> Seq<char> {
    "windowrule = "@ + mode_text(mode) + ", initialTitle:"@ + title
}

/// The lines that `generate` prints for a window first titled `title`: the
/// float rule if asked for, then the tile rule if asked for.
pub open spec fn config_text(command: Commands, title: Seq<char>) -> Seq<Seq<char>> {
    match command {
        Commands::Generate { float, tile, .. } => {
            (if float { seq![title_rule(WindowMode::Float, title)] } else { Seq::empty() })
                + (if tile { seq![title_rule(WindowMode::Tile, title)] } else { Seq::empty() })
        },
    }
}

impl WindowMode {
    /// The mode's keyword.
    pub fn to_string(&self) -> (r: String)
        ensures
            r@ == mode_text(*self),
    {
        match self {
            WindowMode::Float => String::from_str("float"),
            WindowMode::Tile => String::from_str("tile"),
        }
    }
}

impl Parameter {
    /// The value the parameter matches on, without its key.
    pub fn to_string(&self) -> (r: String)
        ensures
            r@ == parameter_value(*self),
    {
        match self {
            Parameter::Class(v) => v.clone(),
            Parameter::Title(v) => v.clone(),
            Parameter::InitialClass(v) => v.clone(),
            Parameter::InitialTitle(v) => v.clone(),
        }
    }

    /// The key the configuration writes before the value, colon included.
    pub fn key(&self) -> (r: &'static str)
        ensures
            r@ == parameter_key(*self),
    {
        match self {
            Parameter::Class(_) => "class:",
            Parameter::Title(_) => "title:",
            Parameter::InitialClass(_) => "initialClass:",
            Parameter::InitialTitle(_) => "initialTitle:",
        }
    }
}

impl WindowRule {
    /// The rule's line: `windowrule = <mode>, ` then the parameters, one per line.
    pub fn to_text(&self) -> (r: String)
        ensures
            r@ == rule_text(self.mode, self.parameters@),
    {
        let mut out = String::from_str("windowrule = ");
        out.append(self.mode.to_string().as_str());
        out.append(", ");
        let mut i: usize = 0;
        while i < self.parameters.len()
            invariant
                0 <= i <= self.parameters@.len(),
                out@ == "windowrule = "@ + mode_text(self.mode) + ", "@ + parameters_text(self.parameters@, i as int),
            decreases self.parameters@.len() - i,
        {
            if i > 0 {
                out.append("\n");
            }
            out.append(self.parameters[i].key());
            out.append(self.parameters[i].to_string().as_str());
            i = i + 1;
            assert(out@ =~= "windowrule = "@ + mode_text(self.mode) + ", "@ + parameters_text(self.parameters@, i as int));
        }
        out
    }
}

/// The configuration lines for a window first titled `title`.
pub fn config_lines(command: &Commands, title: &str) -> (r: Vec<String>)
    ensures
        r@.len() == config_text(*command, title@).len(),
        forall|i: int| 0 <= i < r@.len() ==> (#[trigger] r@[i])@ == config_text(*command, title@)[i],
{
    proof {
        reveal_strlit("initialTitle:");
        reveal_strlit(", initialTitle:");
        reveal_strlit(", ");
        assert(", initialTitle:"@ =~= ", "@ + "initialTitle:"@);
    }
    let mut out: Vec<String> = Vec::new();
    match command {
        Commands::Generate { float, tile, .. } => {
            if *float {
                let rule = WindowRule {
                    mode: WindowMode::Float,
                    parameters: vec![Parameter::InitialTitle(String::from_str(title))],
                };
                let line = rule.to_text();
                proof {
                    assert(rule.parameters@.len() == 1);
                    assert(parameter_text(rule.parameters@[0]) == "initialTitle:"@ + title@);
                    assert(line@ =~= title_rule(WindowMode::Float, title@));
                }
                out.push(line);
            }
            if *tile {
                let rule = WindowRule {
                    mode: WindowMode::Tile,
                    parameters: vec![Parameter::InitialTitle(String::from_str(title))],
                };
                let line = rule.to_text();
                proof {
                    assert(rule.parameters@.len() == 1);
                    assert(parameter_text(rule.parameters@[0]) == "initialTitle:"@ + title@);
                    assert(line@ =~= title_rule(WindowMode::Tile, title@));
                }
                out.push(line);
            }
        },
    }
    assert(out@.len() == config_text(*command, title@).len());
    out
}

} // verus!
