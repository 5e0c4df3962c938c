//! The decisions of the call check: which capabilities a call target is
//! held to, the mismatch a call makes, and how a mismatch is reported.
use vstd::prelude::*;

use crate::capability::{Capability, CapabilitySet, spec_call_edge_caps, spec_empty, spec_includes, spec_letter, spec_letters,
    spec_missing_for, spec_single};
use crate::capsmap::CapsMap;
use crate::contracts::{CallContractMismatch, CallContractMismatchKind, rvs_collect_call_contract_mismatch,
    rvs_collect_named_call_contract_mismatch, spec_callee_display};
use crate::names::{rvs_extract_raw_suffix, rvs_has_unknown_letter, rvs_parse_function, spec_has_unknown_letter, spec_parsed_caps,
    spec_raw_suffix};
use crate::symbols::{rvs_fn_name_chars, spec_fn_name};
use crate::text::{lemma_last_pair_bounds, rvs_last_pair, spec_last_pair, rvs_chars_of, rvs_push_all, rvs_slice_chars, rvs_string_of};

verus! {

/// The capabilities a capability map records for exactly `def_path`.
pub open spec fn spec_lookup_exact(capsmap: Option<CapsMap>, def_path: Seq<char>) -> Option<CapabilitySet> {
    match capsmap {
        Some(cm) => match cm.spec_info(def_path) {
            Some(info) => Some(info.caps),
            None => None,
        },
        None => None,
    }
}

/// Looks up the capabilities recorded for exactly `def_path`; no map knows
/// nothing.
pub fn rvs_lookup_caps_exact(capsmap: &Option<CapsMap>, def_path: &str) -> (r: Option<CapabilitySet>)
    requires
        capsmap matches Some(cm) ==> cm.wf(),
    ensures
        r == spec_lookup_exact(*capsmap, def_path@),
{
    match capsmap {
        Some(cm) => cm.rvs_lookup(def_path),
        None => None,
    }
}

/// The capabilities a call target is held to: a port method the port
/// capability; a checked name with a suffix of capability letters, or with
/// some capability among its letters, what its name declares; a checked name
/// whose suffix holds only unknown letters, nothing when it is local (its own
/// declaration is diagnosed) and else what the map records; any other name
/// what the map records. `None` means the call is not checked; `Some(None)`
/// that the target's capabilities are unknown.
pub open spec fn spec_call_target_caps(
    def_path: Seq<char>,
    is_port_method: bool,
    is_local: bool,
    capsmap: Option<CapsMap>,
) -> Option<Option<CapabilitySet>> {
    if is_port_method {
        Some(Some(spec_single(Capability::P)))
    } else {
        let name = spec_fn_name(def_path);
        match spec_parsed_caps(name) {
            Some(cc) => if !spec_has_unknown_letter(spec_raw_suffix(name)) || cc != spec_empty() {
                Some(Some(cc))
            } else if !is_local {
                Some(spec_lookup_exact(capsmap, def_path))
            } else {
                None
            },
            None => Some(spec_lookup_exact(capsmap, def_path)),
        }
    }
}

/// The mismatch a call of `def_path` (written `src_path`) makes in a function
/// with capabilities `caps`: none when the call is not checked, else that of
/// its target's capabilities as `spec_call_target_caps` gives them.
pub fn rvs_call_target_mismatch(
    def_path: &str,
    src_path: Option<&str>,
    caps: &CapabilitySet,
    capsmap: &Option<CapsMap>,
    is_port_method: bool,
    is_local: bool,
) -> (r: Option<CallContractMismatch>)
    requires
        capsmap matches Some(cm) ==> cm.wf(),
    ensures
        match spec_call_target_caps(def_path@, is_port_method, is_local, *capsmap) {
            None => r is None,
            Some(None) => r matches Some(m) && m.kind == CallContractMismatchKind::UnknownCallee && m.callee_caps is None
                && m.missing_caps == spec_empty(),
            Some(Some(c)) => if c == spec_empty() || spec_includes(*caps, spec_call_edge_caps(c)) {
                r is None
            } else {
                r matches Some(m) && m.kind == CallContractMismatchKind::MissingCapabilities && m.callee_caps == Some(c)
                    && m.missing_caps == spec_missing_for(*caps, c)
            },
        },
        r matches Some(m) ==> m.callee_display@ == spec_callee_display(def_path@, match src_path { Some(s) => Some(s@), None => None }),
{
    if is_port_method {
        let cc = CapabilitySet::rvs_single(Capability::P);
        return rvs_collect_call_contract_mismatch(def_path, src_path, caps, Some(&cc));
    }
    let path = rvs_chars_of(def_path);
    let name = rvs_fn_name_chars(path.as_slice());
    let raw_suffix = rvs_extract_raw_suffix(name.as_slice());
    let has_unknown_suffix = rvs_has_unknown_letter(raw_suffix.as_slice());
    match rvs_parse_function(name.as_slice()) {
        Some((_, cc)) => {
            if !has_unknown_suffix || !cc.rvs_is_empty() {
                rvs_collect_named_call_contract_mismatch(def_path, src_path, caps, &cc)
            } else if !is_local {
                let lookup = rvs_lookup_caps_exact(capsmap, def_path);
                match lookup {
                    Some(c) => rvs_collect_call_contract_mismatch(def_path, src_path, caps, Some(&c)),
                    None => rvs_collect_call_contract_mismatch(def_path, src_path, caps, None),
                }
            } else {
                None
            }
        },
        None => {
            let lookup = rvs_lookup_caps_exact(capsmap, def_path);
            match lookup {
                Some(c) => rvs_collect_call_contract_mismatch(def_path, src_path, caps, Some(&c)),
                None => rvs_collect_call_contract_mismatch(def_path, src_path, caps, None),
            }
        },
    }
}

/// The hint for an unknown callee: its written path quoted, then the rest
/// of the display after the last ` (`, or the whole display quoted.
pub open spec fn spec_unknown_callee_hint(display: Seq<char>) -> Seq<char> {
    match spec_last_pair(display, ' ', '(') {
        Some(i) => "'"@ + display.subrange(0, i) + "' ("@ + display.subrange(i + 2, display.len() as int) + " not in capsmap"@,
        None => "'"@ + display + "' not in capsmap"@,
    }
}

/// The hint shown for a callee the capability map does not know.
pub fn rvs_unknown_callee_hint(callee_display: &str) -> (r: String)
    ensures
        r@ == spec_unknown_callee_hint(callee_display@),
{
    let d = rvs_chars_of(callee_display);
    proof {
        assert(d@.subrange(0, d@.len() as int) =~= d@);
        lemma_last_pair_bounds(d@, ' ', '(');
    }
    match rvs_last_pair(d.as_slice(), ' ', '(') {
        Some(i) => {
            assert(i + 2 <= d@.len());
            let rest_start: usize = i + 2;
            let mut out = rvs_chars_of("'");
            rvs_push_all(&mut out, rvs_slice_chars(d.as_slice(), 0, i).as_slice());
            rvs_push_all(&mut out, rvs_chars_of("' (").as_slice());
            rvs_push_all(&mut out, rvs_slice_chars(d.as_slice(), rest_start, d.len()).as_slice());
            rvs_push_all(&mut out, rvs_chars_of(" not in capsmap").as_slice());
            rvs_string_of(out.as_slice())
        },
        None => {
            let mut out = rvs_chars_of("'");
            rvs_push_all(&mut out, d.as_slice());
            rvs_push_all(&mut out, rvs_chars_of("' not in capsmap").as_slice());
            rvs_string_of(out.as_slice())
        },
    }
}

/// The letters of a set joined by `, `.
pub open spec fn spec_letter_list(letters: Seq<char>) -> Seq<char>
    decreases letters.len(),
{
    if letters.len() == 0 {
        Seq::empty()
    } else if letters.len() == 1 {
        seq![letters[0]]
    } else {
        spec_letter_list(letters.drop_last()) + ", "@ + seq![letters.last()]
    }
}

/// The report of a call mismatch: the hint for an unknown callee; for
/// missing capabilities the caller's letters, an arrow, the callee as shown
/// (when there is anything to show) with its letters, and the missing
/// capabilities.
pub open spec fn spec_call_mismatch_message(caps: CapabilitySet, m_kind: CallContractMismatchKind, display: Seq<char>,
    callee_caps: CapabilitySet, missing: CapabilitySet) -> Seq<char> {
    match m_kind {
        CallContractMismatchKind::UnknownCallee => spec_unknown_callee_hint(display),
        CallContractMismatchKind::MissingCapabilities => if display.len() == 0 {
            spec_letters(caps) + " → "@ + spec_letters(callee_caps) + " missing "@ + spec_letter_list(spec_letters(missing))
        } else {
            spec_letters(caps) + " → "@ + display + " ("@ + spec_letters(callee_caps) + ") missing "@
                + spec_letter_list(spec_letters(missing))
        },
    }
}

/// The missing capabilities' letters joined by `, `.
fn rvs_letter_list(letters: &[char]) -> (r: Vec<char>)
    ensures
        r@ == spec_letter_list(letters@),
{
    let mut out: Vec<char> = Vec::new();
    let mut i: usize = 0;
    proof {
        assert(letters@.take(0) =~= Seq::<char>::empty());
    }
    while i < letters.len()
        invariant
            i <= letters@.len(),
            out@ == spec_letter_list(letters@.take(i as int)),
        decreases letters.len() - i,
    {
        let ghost before = out@;
        if i > 0 {
            rvs_push_all(&mut out, rvs_chars_of(", ").as_slice());
        }
        out.push(letters[i]);
        proof {
            let t = letters@.take(i + 1);
            assert(t.drop_last() =~= letters@.take(i as int));
            if i == 0 {
                assert(out@ =~= spec_letter_list(t));
            } else {
                assert(out@ =~= spec_letter_list(t));
            }
        }
        i = i + 1;
    }
    proof {
        assert(letters@.take(letters@.len() as int) =~= letters@);
    }
    out
}

/// The message reported for a call mismatch made in a function with
/// capabilities `caps`.
pub fn rvs_call_mismatch_message(caps: &CapabilitySet, mismatch: &CallContractMismatch) -> (r: String)
    requires
        mismatch.kind == CallContractMismatchKind::MissingCapabilities ==> mismatch.callee_caps is Some,
    ensures
        r@ == spec_call_mismatch_message(*caps, mismatch.kind, mismatch.callee_display@,
            match mismatch.callee_caps { Some(c) => c, None => spec_empty() }, mismatch.missing_caps),
{
    match mismatch.kind {
        CallContractMismatchKind::UnknownCallee => rvs_unknown_callee_hint(mismatch.callee_display.as_str()),
        CallContractMismatchKind::MissingCapabilities => {
            let callee_caps = match mismatch.callee_caps {
                Some(c) => c,
                None => CapabilitySet::rvs_new(),
            };
            let display = rvs_chars_of(mismatch.callee_display.as_str());
            let missing_letters = mismatch.missing_caps.rvs_letter_chars();
            let missing = rvs_letter_list(missing_letters.as_slice());
            let mut out = caps.rvs_letter_chars();
            rvs_push_all(&mut out, rvs_chars_of(" → ").as_slice());
            if display.len() == 0 {
                rvs_push_all(&mut out, callee_caps.rvs_letter_chars().as_slice());
                rvs_push_all(&mut out, rvs_chars_of(" missing ").as_slice());
            } else {
                rvs_push_all(&mut out, display.as_slice());
                rvs_push_all(&mut out, rvs_chars_of(" (").as_slice());
                rvs_push_all(&mut out, callee_caps.rvs_letter_chars().as_slice());
                rvs_push_all(&mut out, rvs_chars_of(") missing ").as_slice());
            }
            rvs_push_all(&mut out, missing.as_slice());
            rvs_string_of(out.as_slice())
        },
    }
}

} // verus!
