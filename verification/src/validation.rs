//! Structural validation of a seal request: distinct roots, and distinct
//! spellings among the declarations of each submitted table.

use vstd::prelude::*;

use crate::error::{ErrorV, NameTableError};
use crate::name::Name;
use crate::spelling_set::{lemma_seen_empty, record_spelling, seen_covers, spelled};
use crate::request::{
    DeclV, Declaration, ModulePath, RootDeclV, SealRequest, decls_view,
    reveal_module_path_view, reveal_root_decl_view, reveal_seal_request_view, root_decl_views,
};
use crate::root_order::{root_laws, same_root};
use crate::state::spellings;

verus! {

broadcast use {
    crate::name::reveal_name_view,
    reveal_module_path_view,
    reveal_root_decl_view,
    reveal_seal_request_view,
};

/// The spellings of a declaration list.
pub open spec fn decl_names(ds: Seq<DeclV>) -> Seq<Seq<char>> {
    ds.map_values(|d: DeclV| d.name())
}

/// The first validation failure among `ds[i..]` of one submitted table, in
/// traversal order (each module's own table is checked right after its
/// declaration).
pub open spec fn validate_decls_from<Root>(
    table: (Root, Seq<Seq<char>>),
    ds: Seq<DeclV>,
    i: int,
) -> Option<ErrorV<Root>>
    decreases ds, ds.len() - i,
{
    if i < 0 || i >= ds.len() {
        None
    } else if decl_names(ds.subrange(0, i)).contains(ds[i].name()) {
        Some(ErrorV::Redefinition(table, ds[i].name()))
    } else {
        let child = match ds[i] {
            DeclV::Member(_) => None,
            DeclV::Module(name, _, children) => validate_decls_from(
                (table.0, table.1.push(name)),
                children,
                0,
            ),
        };
        if child is Some {
            child
        } else {
            validate_decls_from(table, ds, i + 1)
        }
    }
}

/// The first validation failure among `roots[i..]`.
pub open spec fn validate_roots_from<Root>(roots: Seq<RootDeclV<Root>>, i: int) -> Option<
    ErrorV<Root>,
>
    decreases roots.len() - i,
{
    if i < 0 || i >= roots.len() {
        None
    } else if exists|j: int| 0 <= j < i && roots[j].root == roots[i].root {
        Some(ErrorV::DuplicateRootDeclaration(roots[i].root))
    } else {
        let child = validate_decls_from((roots[i].root, Seq::empty()), roots[i].declarations, 0);
        if child is Some {
            child
        } else {
            validate_roots_from(roots, i + 1)
        }
    }
}

/// The spellings of a declaration list are those of its views.
pub(crate) proof fn lemma_spelled_decls(s: Seq<Declaration>)
    ensures
        spelled(s) == decl_names(decls_view(s)),
{
    crate::request::lemma_decls_view_len(s);
    assert forall|k: int| 0 <= k < s.len() implies #[trigger] spelled(s)[k] == decl_names(
        decls_view(s),
    )[k] by {
        crate::request::lemma_decl_view_at(s, k);
    }
    assert(spelled(s) =~= decl_names(decls_view(s)));
}

/// Check the declarations of one submitted table and, in turn, of each
/// module table they own.
#[verifier::rlimit(60)]
pub(crate) fn validate_declarations<Root: Copy>(
    table_path: &ModulePath<Root>,
    declarations: &[Declaration],
) -> (result: Result<(), NameTableError<Root>>)
    ensures
        match result {
            Ok(()) => validate_decls_from(table_path@, decls_view(declarations@), 0) is None,
            Err(e) => validate_decls_from(table_path@, decls_view(declarations@), 0) == Some(e@),
        },
    decreases declarations@,
{
    let ghost dsv = decls_view(declarations@);
    let ghost tv = table_path@;
    proof {
        crate::request::lemma_decls_view_len(declarations@);
    }
    let mut seen: Vec<usize> = Vec::new();
    proof {
        lemma_spelled_decls(declarations@);
        lemma_seen_empty(spelled(declarations@));
    }
    let mut i: usize = 0;
    while i < declarations.len()
        invariant
            dsv == decls_view(declarations@),
            dsv.len() == declarations@.len(),
            spelled(declarations@) == decl_names(dsv),
            tv == table_path@,
            i <= declarations@.len(),
            seen_covers(spelled(declarations@), seen@, i as int),
            validate_decls_from(tv, dsv, 0) == validate_decls_from(tv, dsv, i as int),
        decreases declarations@.len() - i,
    {
        proof {
            crate::request::lemma_decl_view_at(declarations@, i as int);
        }
        let declaration = &declarations[i];
        let fresh = record_spelling(declarations, &mut seen, i);
        proof {
            assert(decl_names(dsv.subrange(0, i as int)) =~= decl_names(dsv).subrange(0, i as int));
        }
        if !fresh {
            return Err(
                NameTableError::Redefinition {
                    table: table_path.duplicate(),
                    spelling: declaration.name().duplicate(),
                },
            );
        }
        if let Declaration::Module(module) = declaration {
            let mut modules = crate::state::copy_names(table_path.modules.as_slice());
            modules.push(module.name.duplicate());
            let child_path = ModulePath::new(table_path.root, modules);
            proof {
                assert(child_path@ == (tv.0, tv.1.push(module.name@)));
                assert(decreases_to!(declarations@ => declarations@[i as int]));
            }
            let child = validate_declarations(&child_path, module.declarations.as_slice());
            if child.is_err() {
                return child;
            }
        }
        i = i + 1;
    }
    Ok(())
}

/// Check a seal request: no root graph is submitted twice, and no submitted
/// table declares one spelling twice.
pub(crate) fn validate_request<Root: Ord + Copy>(request: &SealRequest<Root>) -> (result: Result<
    (),
    NameTableError<Root>,
>)
    requires
        root_laws::<Root>(),
    ensures
        match result {
            Ok(()) => validate_roots_from(request@.roots, 0) is None,
            Err(e) => validate_roots_from(request@.roots, 0) == Some(e@),
        },
{
    let ghost rv = request@.roots;
    let mut i: usize = 0;
    while i < request.roots.len()
        invariant
            root_laws::<Root>(),
            rv == request@.roots,
            rv == root_decl_views(request.roots@),
            i <= request.roots@.len(),
            validate_roots_from(rv, 0) == validate_roots_from(rv, i as int),
        decreases request.roots@.len() - i,
    {
        let root = &request.roots[i];
        let mut j: usize = 0;
        while j < i
            invariant
                root_laws::<Root>(),
                rv == root_decl_views(request.roots@),
                i < request.roots@.len(),
                *root == request.roots@[i as int],
                validate_roots_from(rv, 0) == validate_roots_from(rv, i as int),
                j <= i,
                forall|k: int| 0 <= k < j ==> rv[k].root != rv[i as int].root,
            decreases i - j,
        {
            proof {
                reveal_root_decl_view(request.roots@[j as int]);
                reveal_root_decl_view(request.roots@[i as int]);
                assert(rv[j as int] == request.roots@[j as int]@);
                assert(rv[i as int] == request.roots@[i as int]@);
            }
            if same_root(&request.roots[j].root, &root.root) {
                proof {
                    assert(rv[j as int].root == rv[i as int].root);
                }
                return Err(NameTableError::DuplicateRootDeclaration { root: root.root });
            }
            j = j + 1;
        }
        let empty: Vec<Name> = Vec::new();
        let table_path = ModulePath::new(root.root, empty);
        proof {
            assert(spellings(empty@) =~= Seq::<Seq<char>>::empty());
        }
        proof {
            assert(rv[i as int] == request.roots@[i as int]@);
        }
        let child = validate_declarations(&table_path, root.declarations.as_slice());
        if child.is_err() {
            return child;
        }
        i = i + 1;
    }
    Ok(())
}

} // verus!
