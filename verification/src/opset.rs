//! Resolution of the operator-set version that governs a model.

use vstd::prelude::*;
use crate::error::SessionError;

verus! {

/// One operator-set import of a model: a domain and the version of it that
/// the model was written against. The empty domain is the default one.
#[derive(Debug, Clone)]
pub struct OpsetImport {
    pub domain: String,
    pub version: i64,
}

/// An operator-set import as a mathematical value.
pub struct OpsetImportView {
    pub domain: Seq<char>,
    pub version: i64,
}

impl DeepView for OpsetImport {
    type V = OpsetImportView;

    open spec fn deep_view(&self) -> OpsetImportView {
        OpsetImportView { domain: self.domain@, version: self.version }
    }
}

/// What the imports of a model resolve to.
pub enum Resolution {
    /// Every import is of the default domain and of this version.
    Version(i64),
    /// There is no import at all.
    Missing,
    /// The default domain is imported with these two versions, in this order.
    Conflict(i64, i64),
    /// This other domain is imported.
    Foreign(Seq<char>),
}

/// Import `i` is of the default domain, with the version of the first import.
pub open spec fn agrees(imports: Seq<OpsetImportView>, i: int) -> bool {
    imports[i].domain.len() == 0 && imports[i].version == imports[0].version
}

/// Import `k` is the first that does not agree with the first import.
pub open spec fn first_offender(imports: Seq<OpsetImportView>, k: int) -> bool {
    &&& 0 <= k < imports.len()
    &&& !agrees(imports, k)
    &&& forall|i: int| 0 <= i < k ==> agrees(imports, i)
}

/// The resolution of a list of imports: the common version where all of them
/// are default-domain imports of one version, and otherwise what is wrong with
/// the first import that is not.
pub open spec fn resolution(imports: Seq<OpsetImportView>) -> Resolution {
    if imports.len() == 0 {
        Resolution::Missing
    } else if forall|i: int| 0 <= i < imports.len() ==> agrees(imports, i) {
        Resolution::Version(imports[0].version)
    } else {
        let k = choose|k: int| first_offender(imports, k);
        if imports[k].domain.len() > 0 {
            Resolution::Foreign(imports[k].domain)
        } else {
            Resolution::Conflict(imports[0].version, imports[k].version)
        }
    }
}

/// What a result of [`resolve_opset`] says, as a [`Resolution`].
pub open spec fn outcome(r: Result<i64, SessionError>) -> Option<Resolution> {
    match r {
        Ok(v) => Some(Resolution::Version(v)),
        Err(SessionError::UnknownOnnxOpsetVersion) => Some(Resolution::Missing),
        Err(SessionError::DuplicateOnnxOpset(a, b)) => Some(Resolution::Conflict(a, b)),
        Err(SessionError::UnknownOpset(d)) => Some(Resolution::Foreign(d@)),
        Err(_) => None,
    }
}

/// At most one import is the first offender.
pub proof fn first_offender_unique(imports: Seq<OpsetImportView>, a: int, b: int)
    requires
        first_offender(imports, a),
        first_offender(imports, b),
    ensures
        a == b,
{
    if a < b {
        assert(agrees(imports, a));
    } else if b < a {
        assert(agrees(imports, b));
    }
}

/// Imports resolve to a version exactly if there is at least one, and all
/// are of the default domain and of that version.
pub proof fn resolves_when_all_agree(imports: Seq<OpsetImportView>, version: i64)
    ensures
        resolution(imports) == Resolution::Version(version) <==> imports.len() > 0 && forall|
            i: int,
        |
            0 <= i < imports.len() ==> (#[trigger] imports[i]).domain.len() == 0
                && imports[i].version == version,
{
    if imports.len() > 0 {
        if forall|i: int|
            0 <= i < imports.len() ==> (#[trigger] imports[i]).domain.len() == 0
                && imports[i].version == version {
            assert forall|i: int| 0 <= i < imports.len() implies agrees(imports, i) by {
                assert(imports[i].domain.len() == 0);
                assert(imports[0].version == version);
            }
        }
        if resolution(imports) == Resolution::Version(version) {
            assert forall|i: int| 0 <= i < imports.len() implies (#[trigger] imports[i]).domain.len()
                == 0 && imports[i].version == version by {
                assert(agrees(imports, i));
            }
        }
    }
}

/// Imports are refused for a foreign domain or for a conflict because of
/// the first import that is not a default-domain import of the version of
/// the first one: one of another domain names that domain, and one of
/// another version names both versions.
pub proof fn refusal_names_the_offender(imports: Seq<OpsetImportView>, k: int)
    requires
        first_offender(imports, k),
    ensures
        imports[k].domain.len() > 0 ==> resolution(imports) == Resolution::Foreign(
            imports[k].domain,
        ),
        imports[k].domain.len() == 0 ==> resolution(imports) == Resolution::Conflict(
            imports[0].version,
            imports[k].version,
        ),
{
    let chosen = choose|j: int| first_offender(imports, j);
    first_offender_unique(imports, chosen, k);
}

/// Finds the version of the default operator set that a model uses.
///
/// The imports are read in order. An import of another domain is refused with
/// that domain; a default-domain import whose version differs from the first
/// one is refused with both versions; no import at all is refused as well.
pub fn resolve_opset(imports: &Vec<OpsetImport>) -> (r: Result<i64, SessionError>)
    ensures
        outcome(r) == Some(resolution(imports.deep_view())),
{
    let ghost view = imports.deep_view();
    let mut version: Option<i64> = None;
    let mut i: usize = 0;
    while i < imports.len()
        invariant
            i <= imports.len(),
            view == imports.deep_view(),
            forall|j: int| 0 <= j < i ==> agrees(view, j),
            i == 0 <==> version is None,
            version matches Some(v) ==> v == view[0].version,
        decreases imports.len() - i,
    {
        let import = &imports[i];
        assert(view[i as int] == import.deep_view());
        if !import.domain.as_str().is_empty() {
            proof {
                assert(first_offender(view, i as int));
                let k = choose|k: int| first_offender(view, k);
                first_offender_unique(view, k, i as int);
            }
            return Err(SessionError::UnknownOpset(import.domain.clone()));
        }
        match version {
            Some(first) => {
                if import.version != first {
                    proof {
                        assert(first_offender(view, i as int));
                        let k = choose|k: int| first_offender(view, k);
                        first_offender_unique(view, k, i as int);
                    }
                    return Err(SessionError::DuplicateOnnxOpset(first, import.version));
                }
            },
            None => {
                version = Some(import.version);
            },
        }
        i = i + 1;
    }
    match version {
        Some(v) => Ok(v),
        None => Err(SessionError::UnknownOnnxOpsetVersion),
    }
}

} // verus!
