//! Which caps layer an inference command's output file writes, decided from
//! the answers of filesystem queries: the queries themselves (is a path a
//! directory, are two paths the same file, which files a directory holds)
//! are made by the caller, one step at a time.
use vstd::prelude::*;

use crate::text::rvs_chars_of;

verus! {

/// The code of a character's ASCII lower case.
pub open spec fn spec_lower_code(c: char) -> int {
    if 'A' <= c && c <= 'Z' {
        (c as u32) + 32
    } else {
        c as u32 as int
    }
}

/// Equal up to ASCII case.
pub open spec fn spec_eq_ignore_ascii_case(a: Seq<char>, b: Seq<char>) -> bool {
    a.len() == b.len() && forall|i: int| 0 <= i < a.len() ==> spec_lower_code(#[trigger] a[i]) == spec_lower_code(b[i])
}

fn rvs_lower_code(c: char) -> (r: u32)
    ensures
        r == spec_lower_code(c),
{
    if 'A' <= c && c <= 'Z' {
        (c as u32) + 32
    } else {
        c as u32
    }
}

/// Whether two names are equal up to ASCII case.
pub fn rvs_eq_ignore_ascii_case(a: &str, b: &str) -> (r: bool)
    ensures
        r == spec_eq_ignore_ascii_case(a@, b@),
{
    let x = rvs_chars_of(a);
    let y = rvs_chars_of(b);
    if x.len() != y.len() {
        return false;
    }
    let mut i: usize = 0;
    while i < x.len()
        invariant
            x@ == a@,
            y@ == b@,
            x@.len() == y@.len(),
            i <= x@.len(),
            forall|j: int| 0 <= j < i ==> spec_lower_code(#[trigger] x@[j]) == spec_lower_code(y@[j]),
        decreases x@.len() - i,
    {
        if rvs_lower_code(x[i]) != rvs_lower_code(y[i]) {
            return false;
        }
        i = i + 1;
    }
    true
}

/// The next step of the output-layer decision.
#[derive(Debug, PartialEq, Eq)]
pub enum OutputLayerStep {
    /// The answer: the name of the caps layer the output writes, if any.
    Layer(Option<String>),
    /// The output's parent names the caps directory in another case, under
    /// the same root.
    AliasesCapsDir,
    /// Ask whether the output's parent is a directory.
    AskParentIsDir,
    /// Ask whether the output's parent is the caps directory itself.
    AskParentIsCapsDir,
    /// Ask whether the output is an existing file.
    AskOutputIsFile,
    /// Ask which files of the caps directory are the output.
    ListIdentities,
}

/// A step as a plain value.
pub enum OutputLayerStepView {
    Layer(Option<Seq<char>>),
    AliasesCapsDir,
    AskParentIsDir,
    AskParentIsCapsDir,
    AskOutputIsFile,
    ListIdentities,
}

impl OutputLayerStep {
    pub open spec fn spec_view(self) -> OutputLayerStepView {
        match self {
            OutputLayerStep::Layer(Some(n)) => OutputLayerStepView::Layer(Some(n@)),
            OutputLayerStep::Layer(None) => OutputLayerStepView::Layer(None),
            OutputLayerStep::AliasesCapsDir => OutputLayerStepView::AliasesCapsDir,
            OutputLayerStep::AskParentIsDir => OutputLayerStepView::AskParentIsDir,
            OutputLayerStep::AskParentIsCapsDir => OutputLayerStepView::AskParentIsCapsDir,
            OutputLayerStep::AskOutputIsFile => OutputLayerStepView::AskOutputIsFile,
            OutputLayerStep::ListIdentities => OutputLayerStepView::ListIdentities,
        }
    }
}

/// The parent's name equals the caps directory's name up to ASCII case.
pub open spec fn spec_names_match(parent_name: Option<Seq<char>>, caps_name: Option<Seq<char>>) -> bool {
    match (parent_name, caps_name) {
        (Some(p), Some(c)) => spec_eq_ignore_ascii_case(p, c),
        _ => false,
    }
}

/// The first step, for an output with a parent: an alias of the caps
/// directory (another path whose name matches up to case under the same
/// root) is refused; without a caps directory the output writes a layer
/// when its parent is, or names, the caps directory; otherwise the parent
/// is examined.
pub open spec fn spec_first_step(
    parent_is_caps_dir: bool,
    parent_name: Option<Seq<char>>,
    caps_name: Option<Seq<char>>,
    roots_match: bool,
    caps_dir_exists: bool,
    output_name: Option<Seq<char>>,
) -> OutputLayerStepView {
    let named = spec_names_match(parent_name, caps_name) && roots_match;
    if !parent_is_caps_dir && named {
        OutputLayerStepView::AliasesCapsDir
    } else if !caps_dir_exists {
        OutputLayerStepView::Layer(if parent_is_caps_dir || named { output_name } else { None })
    } else {
        OutputLayerStepView::AskParentIsDir
    }
}

fn rvs_copy_name(n: Option<&str>) -> (r: Option<String>)
    ensures
        r matches Some(s) ==> n matches Some(t) && s@ == t@,
        r is None ==> n is None,
{
    match n {
        Some(t) => Some(crate::text::rvs_string_of(rvs_chars_of(t).as_slice())),
        None => None,
    }
}

/// The first step of the output-layer decision.
pub fn rvs_output_layer_first_step(
    parent_is_caps_dir: bool,
    parent_name: Option<&str>,
    caps_name: Option<&str>,
    roots_match: bool,
    caps_dir_exists: bool,
    output_name: Option<&str>,
) -> (r: OutputLayerStep)
    ensures
        r.spec_view() == spec_first_step(parent_is_caps_dir, match parent_name { Some(p) => Some(p@), None => None },
            match caps_name { Some(c) => Some(c@), None => None }, roots_match, caps_dir_exists,
            match output_name { Some(o) => Some(o@), None => None }),
{
    let names = match (parent_name, caps_name) {
        (Some(p), Some(c)) => rvs_eq_ignore_ascii_case(p, c),
        _ => false,
    };
    let named = names && roots_match;
    if !parent_is_caps_dir && named {
        OutputLayerStep::AliasesCapsDir
    } else if !caps_dir_exists {
        if parent_is_caps_dir || named {
            OutputLayerStep::Layer(rvs_copy_name(output_name))
        } else {
            OutputLayerStep::Layer(None)
        }
    } else {
        OutputLayerStep::AskParentIsDir
    }
}

/// The step after a yes-or-no answer: a parent that is no directory, or is
/// not the caps directory, writes no layer; an output that is no existing
/// file writes the layer of its own name; an existing one is identified
/// among the caps directory's files.
pub open spec fn spec_next_step(asked: OutputLayerStepView, answer: bool, output_name: Option<Seq<char>>) -> OutputLayerStepView {
    match asked {
        OutputLayerStepView::AskParentIsDir => if answer { OutputLayerStepView::AskParentIsCapsDir } else { OutputLayerStepView::Layer(None) },
        OutputLayerStepView::AskParentIsCapsDir => if answer { OutputLayerStepView::AskOutputIsFile } else { OutputLayerStepView::Layer(None) },
        OutputLayerStepView::AskOutputIsFile => if answer { OutputLayerStepView::ListIdentities } else { OutputLayerStepView::Layer(output_name) },
        _ => asked,
    }
}

/// The step after the answer to a yes-or-no question.
pub fn rvs_output_layer_next_step(asked: OutputLayerStep, answer: bool, output_name: Option<&str>) -> (r: OutputLayerStep)
    ensures
        r.spec_view() == spec_next_step(asked.spec_view(), answer, match output_name { Some(o) => Some(o@), None => None }),
{
    match asked {
        OutputLayerStep::AskParentIsDir => if answer { OutputLayerStep::AskParentIsCapsDir } else { OutputLayerStep::Layer(None) },
        OutputLayerStep::AskParentIsCapsDir => if answer { OutputLayerStep::AskOutputIsFile } else { OutputLayerStep::Layer(None) },
        OutputLayerStep::AskOutputIsFile => if answer { OutputLayerStep::ListIdentities } else { OutputLayerStep::Layer(rvs_copy_name(output_name)) },
        other => other,
    }
}

/// How the files of the caps directory that are the output decide the
/// layer: exactly one names it; none, or several, is an error.
#[derive(Debug, PartialEq, Eq)]
pub enum LayerIdentity {
    One,
    NoMatch,
    Several,
}

/// The identity outcome for `n` matching files.
pub open spec fn spec_layer_identity(n: nat) -> LayerIdentity {
    if n == 1 {
        LayerIdentity::One
    } else if n == 0 {
        LayerIdentity::NoMatch
    } else {
        LayerIdentity::Several
    }
}

/// The identity outcome for the matching files.
pub fn rvs_layer_identity(matches: usize) -> (r: LayerIdentity)
    ensures
        r == spec_layer_identity(matches as nat),
{
    if matches == 1 {
        LayerIdentity::One
    } else if matches == 0 {
        LayerIdentity::NoMatch
    } else {
        LayerIdentity::Several
    }
}

} // verus!
