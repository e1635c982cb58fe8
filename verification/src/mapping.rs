use vstd::prelude::*;

use crate::frame::{bytes_eq, mapping_views, MappingConfig, MappingModel};

verus! {

/// Whether `domain` selects this mapping: it equals the mapping's domain or
/// its name.
pub open spec fn spec_match(m: MappingModel, domain: Seq<u8>) -> bool {
    m.domain == domain || m.name == domain
}

/// `i` is the last index of `ms` that `domain` selects.
pub open spec fn is_last_match(ms: Seq<MappingModel>, domain: Seq<u8>, i: int) -> bool {
    &&& 0 <= i < ms.len()
    &&& spec_match(ms[i], domain)
    &&& forall|j: int| i < j < ms.len() ==> !spec_match(#[trigger] ms[j], domain)
}

/// Looks a domain up in a mapping list: the index of the last entry whose
/// domain or name equals `domain`, or `None` when no entry matches.
pub fn lookup_mapping(mappings: &Vec<MappingConfig>, domain: &Vec<u8>) -> (r: Option<usize>)
    ensures
        r matches Some(i) ==> is_last_match(mapping_views(mappings@), domain@, i as int),
        r is None ==> forall|j: int|
            0 <= j < mappings@.len() ==> !spec_match(
                #[trigger] mapping_views(mappings@)[j],
                domain@,
            ),
{
    let mut i: usize = mappings.len();
    while i > 0
        invariant
            0 <= i <= mappings@.len(),
            forall|j: int|
                i <= j < mappings@.len() ==> !spec_match(
                    #[trigger] mapping_views(mappings@)[j],
                    domain@,
                ),
        decreases i,
    {
        i = i - 1;
        if bytes_eq(&mappings[i].domain, domain) || bytes_eq(&mappings[i].name, domain) {
            assert(spec_match(mapping_views(mappings@)[i as int], domain@));
            return Some(i);
        }
        assert(!spec_match(mapping_views(mappings@)[i as int], domain@));
    }
    None
}

/// Appends a newly advertised batch to a registry. A mapping list is kept
/// as everything advertised, in arrival order; lookups take the last match,
/// so a resent name overrides the earlier entry.
pub fn extend_registry(registry: &mut Vec<MappingConfig>, incoming: Vec<MappingConfig>)
    ensures
        mapping_views(final(registry)@) == mapping_views(old(registry)@) + mapping_views(
            incoming@,
        ),
{
    let mut i: usize = 0;
    while i < incoming.len()
        invariant
            0 <= i <= incoming@.len(),
            mapping_views(registry@) == mapping_views(old(registry)@) + mapping_views(
                incoming@.take(i as int),
            ),
        decreases incoming@.len() - i,
    {
        let m = incoming[i].duplicate();
        proof {
            incoming@.lemma_map_take_succ(|x: MappingConfig| x@, i as int);
            registry@.lemma_push_map_commute(|x: MappingConfig| x@, m);
        }
        registry.push(m);
        i = i + 1;
    }
    assert(incoming@.take(incoming@.len() as int) =~= incoming@);
}

/// Resending a mapping overrides the older entry: when any entry of the
/// newer batch matches `domain`, the last match in the grown registry lies
/// in the newer batch, never in the older part.
pub proof fn lemma_later_mapping_wins(
    older: Seq<MappingModel>,
    newer: Seq<MappingModel>,
    domain: Seq<u8>,
    i: int,
)
    requires
        exists|j: int| 0 <= j < newer.len() && spec_match(#[trigger] newer[j], domain),
        is_last_match(older + newer, domain, i),
    ensures
        i >= older.len(),
        (older + newer)[i] == newer[i - older.len()],
{
    let j = choose|j: int| 0 <= j < newer.len() && spec_match(#[trigger] newer[j], domain);
    assert((older + newer)[older.len() + j] == newer[j]);
    if i < older.len() + j {
        assert(spec_match((older + newer)[older.len() + j], domain));
        assert(false);
    }
}

} // verus!
