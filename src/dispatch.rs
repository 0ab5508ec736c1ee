use vstd::prelude::*;
use crate::compiler::{CompileError, CrsRecord, EllipsoidRecipe, Extent, ProjectionRecipe, RegistryTables};
use crate::registry::{compile_err, compiled, db_ellipsoids, decoded, ellipsoids_err, get_ellipsoids, gen_parameter_constructors, lemma_wgs84_is_identity, distinct_codes};
use crate::compiler::WGS84;
use crate::search::first_index;
use crate::table::MemoryDb;

verus! {

/// The compiled registry: every system that the runtime knows, and the
/// ellipsoids by code.
#[derive(Debug)]
pub struct Registry {
    pub records: Vec<CrsRecord>,
    pub ellipsoids: Vec<EllipsoidRecipe>,
}

pub open spec fn record_codes(recs: Seq<CrsRecord>) -> Seq<u32> {
    recs.map_values(|r: CrsRecord| r.code)
}

impl Registry {
    /// The record of the system `code`.
    pub open spec fn record(&self, code: u32) -> Option<CrsRecord> {
        match first_index(record_codes(self.records@), code) {
            Some(i) => Some(self.records@[i]),
            None => None,
        }
    }

    /// No two records share a code.
    pub open spec fn codes_distinct(&self) -> bool {
        distinct_codes(self.records@)
    }

    /// The ellipsoid `code`.
    pub open spec fn ellipsoid(&self, code: u32) -> Option<EllipsoidRecipe> {
        match first_index(self.ellipsoids@.map_values(|e: EllipsoidRecipe| e.code), code) {
            Some(i) => Some(self.ellipsoids@[i]),
            None => None,
        }
    }

    /// The ellipsoid code of the system `code`: defined for projected systems.
    pub open spec fn ellipsoid_code(&self, code: u32) -> Option<u32> {
        match self.record(code) {
            Some(rec) => match rec.projection {
                ProjectionRecipe::Projected { ellipsoid, .. } => Some(ellipsoid),
                ProjectionRecipe::Identity => None,
            },
            None => None,
        }
    }

    /// The name of the system `code`.
    pub open spec fn name(&self, code: u32) -> Option<Seq<char>> {
        match self.record(code) {
            Some(rec) => Some(rec.name@),
            None => None,
        }
    }

    fn record_index(&self, code: u32) -> (r: Option<usize>)
        ensures
            r matches Some(i) ==> i < self.records@.len() && self.record(code) == Some(self.records@[i as int]),
            r is None ==> self.record(code) is None,
    {
        let ghost keys = record_codes(self.records@);
        let mut i: usize = 0;
        while i < self.records.len()
            invariant
                i <= self.records@.len(),
                keys == record_codes(self.records@),
                first_index(keys.subrange(0, i as int), code) is None,
            decreases self.records@.len() - i,
        {
            assert(keys.subrange(0, i + 1).drop_last() == keys.subrange(0, i as int));
            if self.records[i].code == code {
                assert(keys[i as int] == code);
                proof {
                    crate::search::lemma_first_index_prefix(keys, code, i + 1);
                    crate::search::lemma_first_index_bounds(keys, code);
                }
                return Some(i);
            }
            i = i + 1;
        }
        assert(keys.subrange(0, i as int) == keys);
        None
    }
}

/// Compiles a snapshot into a registry: the ellipsoids first, then the
/// systems that use them.
pub fn compile_registry(db: &MemoryDb) -> (r: Result<Registry, CompileError>)
    requires
        db.wf(),
    ensures
        match ellipsoids_err(*db) {
            Some(e) => r == Err::<Registry, CompileError>(e),
            None => match compile_err(*db, db_ellipsoids(*db)) {
                Some(e) => r == Err::<Registry, CompileError>(e),
                None => r matches Ok(reg) && reg.ellipsoids@ == db_ellipsoids(*db) && exists|t: RegistryTables|
                    #[trigger] decoded(*db, db_ellipsoids(*db), t) && compiled(reg.records@, t),
            },
        },
        r matches Ok(reg) ==> reg.codes_distinct(),
{
    let ellipsoids = get_ellipsoids(db)?;
    let records = gen_parameter_constructors(db, &ellipsoids)?;
    Ok(Registry { records, ellipsoids })
}

/// The projection of the system `code`; `None` for a code that the registry
/// does not hold.
pub fn get_projection(registry: &Registry, code: u32) -> (r: Option<&ProjectionRecipe>)
    ensures
        match registry.record(code) {
            Some(rec) => r matches Some(p) && *p == rec.projection,
            None => r is None,
        },
{
    match registry.record_index(code) {
        Some(i) => Some(&registry.records[i].projection),
        None => None,
    }
}

/// The EPSG code of the ellipsoid that the projected system `projection_code`
/// uses; `None` for an unknown code or a geographic system.
pub fn get_ellipsoid_code(registry: &Registry, projection_code: u32) -> (r: Option<u32>)
    ensures
        r == registry.ellipsoid_code(projection_code),
{
    match registry.record_index(projection_code) {
        Some(i) => match &registry.records[i].projection {
            ProjectionRecipe::Projected { ellipsoid, .. } => Some(*ellipsoid),
            ProjectionRecipe::Identity => None,
        },
        None => None,
    }
}

/// The name of the system `code`.
pub fn get_reference_system_name(registry: &Registry, code: u32) -> (r: Option<String>)
    ensures
        match registry.name(code) {
            Some(n) => r matches Some(s) && s@ == n,
            None => r is None,
        },
{
    match registry.record_index(code) {
        Some(i) => Some(registry.records[i].name.clone()),
        None => None,
    }
}

/// The areas of use of the system `code`, each as `[east, north, west,
/// south]`; `None` where the system is unknown or has none.
pub fn get_reference_system_areas(registry: &Registry, code: u32) -> (r: Option<Vec<Extent>>)
    ensures
        match registry.record(code) {
            Some(rec) => if rec.areas@.len() > 0 {
                r matches Some(a) && a@ == rec.areas@
            } else {
                r is None
            },
            None => r is None,
        },
{
    match registry.record_index(code) {
        Some(i) => {
            let areas = &registry.records[i].areas;
            if areas.len() == 0 {
                return None;
            }
            let mut out: Vec<Extent> = Vec::new();
            let mut j: usize = 0;
            while j < areas.len()
                invariant
                    j <= areas@.len(),
                    out@ == areas@.subrange(0, j as int),
                decreases areas@.len() - j,
            {
                out.push(areas[j].duplicate());
                j = j + 1;
                assert(out@ =~= areas@.subrange(0, j as int));
            }
            assert(areas@.subrange(0, j as int) == areas@);
            Some(out)
        },
        None => None,
    }
}

/// Every system's code and name, in the registry's order.
pub fn all_names(registry: &Registry) -> (r: Vec<(u32, String)>)
    ensures
        r@.len() == registry.records@.len(),
        forall|i: int| 0 <= i < r@.len() ==> (#[trigger] r@[i]).0 == registry.records@[i].code && r@[i].1@ == registry.records@[i].name@,
        registry.codes_distinct() ==> forall|i: int, j: int| 0 <= i < j < r@.len() ==> r@[i].0 != r@[j].0,
        registry.codes_distinct() ==> forall|i: int| 0 <= i < r@.len() ==> registry.name(#[trigger] r@[i].0) == Some(r@[i].1@),
{
    let mut out: Vec<(u32, String)> = Vec::new();
    let mut i: usize = 0;
    while i < registry.records.len()
        invariant
            i <= registry.records@.len(),
            out@.len() == i,
            forall|q: int| 0 <= q < i ==> (#[trigger] out@[q]).0 == registry.records@[q].code && out@[q].1@ == registry.records@[q].name@,
        decreases registry.records@.len() - i,
    {
        out.push((registry.records[i].code, registry.records[i].name.clone()));
        i = i + 1;
    }
    proof {
        if registry.codes_distinct() {
            let codes = record_codes(registry.records@);
            assert forall|p: int, q: int| 0 <= p < q < codes.len() implies codes[p] != codes[q] by {}
            assert forall|k: int| 0 <= k < out@.len() implies registry.name(#[trigger] out@[k].0) == Some(out@[k].1@) by {
                crate::search::lemma_distinct_lookup(codes, out@[k].0);
                assert(codes[k] == out@[k].0);
            }
        }
    }
    out
}

/// The ellipsoid `code`.
pub fn get_ellipsoid(registry: &Registry, code: u32) -> (r: Option<&EllipsoidRecipe>)
    ensures
        match registry.ellipsoid(code) {
            Some(e) => r matches Some(x) && *x == e,
            None => r is None,
        },
{
    let ghost keys = registry.ellipsoids@.map_values(|e: EllipsoidRecipe| e.code);
    let mut i: usize = 0;
    while i < registry.ellipsoids.len()
        invariant
            i <= registry.ellipsoids@.len(),
            keys == registry.ellipsoids@.map_values(|e: EllipsoidRecipe| e.code),
            first_index(keys.subrange(0, i as int), code) is None,
        decreases registry.ellipsoids@.len() - i,
    {
        assert(keys.subrange(0, i + 1).drop_last() == keys.subrange(0, i as int));
        if registry.ellipsoids[i].code == code {
            assert(keys[i as int] == code);
            proof {
                crate::search::lemma_first_index_prefix(keys, code, i + 1);
                crate::search::lemma_first_index_bounds(keys, code);
            }
            return Some(&registry.ellipsoids[i]);
        }
        i = i + 1;
    }
    assert(keys.subrange(0, i as int) == keys);
    None
}

/// Every system that the registry holds has a name, and every one but those
/// that map to the identity has an ellipsoid code.
pub proof fn lemma_registry_totality(registry: Registry, c: u32)
    requires
        registry.record(c) is Some,
    ensures
        registry.name(c) is Some,
        !(registry.record(c)->0.projection is Identity) ==> registry.ellipsoid_code(c) is Some,
{
}

/// A compiled registry answers WGS 84 with the identity projection.
pub proof fn lemma_wgs84_resolves_to_identity(registry: Registry, t: RegistryTables)
    requires
        compiled(registry.records@, t),
    ensures
        registry.record(WGS84) matches Some(rec) && rec.projection is Identity,
{
    let recs = registry.records@;
    let codes = record_codes(recs);
    lemma_wgs84_is_identity(recs, t);
    crate::search::lemma_first_index_bounds(codes, WGS84);
    let i = choose|i: int| 0 <= i < recs.len() && (#[trigger] recs[i]).code == WGS84;
    assert(codes[i] == WGS84);
    if let Some(j) = first_index(codes, WGS84) {
        assert(codes[j] == recs[j].code);
    }
}

} // verus!
