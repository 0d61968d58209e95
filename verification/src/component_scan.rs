//! Static count of the core module instantiations a component declares.
//!
//! Wasmtime compares the number of core instances a component creates with
//! the per-store `instances` cap only while instantiating, and reports a
//! breach as plain text. The host counts them up front from the component
//! binary, so an over-cap component is refused with a typed cause before
//! any guest code runs. The binary is walked with `wasmparser`, whose
//! whole-input walk descends into nested modules and components, so an
//! instantiation declared inside a nested component counts too.
use vstd::prelude::*;

use wasmparser::{BinaryReaderError, Instance, Parser, Payload};

verus! {

#[verifier::external_type_specification]
#[verifier::external_body]
pub struct ExBinaryReaderError(BinaryReaderError);

/// What `Parser::new(0).parse_all(bytes)` yields for a binary, payload by
/// payload: for a core instance section, whether each of its entries
/// instantiates a core module; `None` for any other payload. `None` as a
/// whole when the parser reports an error. A function of the bytes alone.
pub uninterp spec fn wasm_instance_sections(bytes: Seq<u8>) -> Option<Seq<Option<Seq<bool>>>>;

/// The views of the payload summaries.
pub open spec fn section_views(v: Seq<Option<Vec<bool>>>) -> Seq<Option<Seq<bool>>> {
    v.map_values(|o: Option<Vec<bool>>| match o {
        Some(f) => Some(f@),
        None => None,
    })
}

/// `Parser::new(0).parse_all(bytes)`, each payload reduced to the
/// instantiation flags of a core instance section (an export bag of
/// existing items does not instantiate) or `None`; the parser's first
/// error, from a payload or from an entry, ends the walk. The walk and the
/// binary format are not restated here.
#[verifier::external_body]
fn scan_payloads(bytes: &[u8]) -> (r: Result<Vec<Option<Vec<bool>>>, BinaryReaderError>)
    ensures
        match r {
            Ok(v) => wasm_instance_sections(bytes@) == Some(section_views(v@)),
            Err(_) => wasm_instance_sections(bytes@) is None,
        },
{
    Parser::new(0).parse_all(bytes).map(|p| match p? {
        Payload::InstanceSection(r) => r.into_iter().map(|e| e.map(|i| matches!(i, Instance::Instantiate { .. }))).collect::<Result<Vec<bool>, _>>().map(Some),
        _ => Ok(None),
    }).collect()
}

/// Number of `true` entries in `flags`.
pub open spec fn count_true(flags: Seq<bool>) -> nat
    decreases flags.len(),
{
    if flags.len() == 0 {
        0
    } else {
        count_true(flags.drop_last()) + if flags.last() {
            1nat
        } else {
            0nat
        }
    }
}

/// `total` plus the number of instantiating entries, saturating at
/// `u32::MAX`.
pub fn add_instantiations(total: u32, flags: &[bool]) -> (r: u32)
    ensures
        r == if total + count_true(flags@) > u32::MAX {
            u32::MAX as int
        } else {
            total + count_true(flags@)
        },
{
    let mut t = total;
    let mut i: usize = 0;
    while i < flags.len()
        invariant
            i <= flags.len(),
            t == if total + count_true(flags@.take(i as int)) > u32::MAX {
                u32::MAX as int
            } else {
                total + count_true(flags@.take(i as int))
            },
        decreases flags.len() - i,
    {
        assert(flags@.take(i + 1).drop_last() =~= flags@.take(i as int));
        if flags[i] {
            t = t.saturating_add(1);
        }
        i = i + 1;
    }
    assert(flags@.take(flags.len() as int) =~= flags@);
    t
}

/// Number of instantiating entries over all the payloads.
pub open spec fn total_instantiations(sections: Seq<Option<Seq<bool>>>) -> nat
    decreases sections.len(),
{
    if sections.len() == 0 {
        0
    } else {
        total_instantiations(sections.drop_last()) + match sections.last() {
            Some(flags) => count_true(flags),
            None => 0nat,
        }
    }
}

/// Number of static core module instantiations declared anywhere in the
/// component graph of `bytes` (saturating at `u32::MAX`); a malformed
/// binary is the parser's error.
pub fn count_component_core_instances(bytes: &[u8]) -> (r: Result<u32, BinaryReaderError>)
    ensures
        match wasm_instance_sections(bytes@) {
            Some(sections) => r matches Ok(n) && n == if total_instantiations(sections) > u32::MAX {
                u32::MAX as int
            } else {
                total_instantiations(sections) as int
            },
            None => r is Err,
        },
{
    let payloads = match scan_payloads(bytes) {
        Ok(v) => v,
        Err(e) => return Err(e),
    };
    let ghost sections = section_views(payloads@);
    let mut total: u32 = 0;
    let mut i: usize = 0;
    while i < payloads.len()
        invariant
            i <= payloads@.len(),
            sections == section_views(payloads@),
            total == if total_instantiations(sections.take(i as int)) > u32::MAX {
                u32::MAX as int
            } else {
                total_instantiations(sections.take(i as int)) as int
            },
        decreases payloads.len() - i,
    {
        assert(sections.take(i + 1).drop_last() =~= sections.take(i as int));
        assert(sections.take(i + 1).last() == sections[i as int]);
        match &payloads[i] {
            Some(flags) => {
                total = add_instantiations(total, flags.as_slice());
            },
            None => {},
        }
        i = i + 1;
    }
    assert(sections.take(payloads.len() as int) =~= sections);
    Ok(total)
}

} // verus!
