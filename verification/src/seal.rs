//! Applying a seal to a staged state: provisioning tables, allocating the
//! declared spellings of each table and publishing new generations.

use vstd::prelude::*;

use crate::error::{ErrorV, NameTableError};
use crate::identity::{LocalEncodedId, TableAddress};
use crate::request::{
    DeclV, Declaration, ModulePath, NamePath, PathV, decls_view, lemma_decl_view_at,
    lemma_decls_view_len,
};
use crate::root_order::root_laws;
use crate::state::{
    AllocationCursor, HeadV, ModuleTableHead, ModuleTableSnapshot, ResolvedName, ResolvedV,
    SnapshotDigest, SnapshotV, TableGeneration, TableMutability, copy_names, next_cursor,
    resolved_views, same_mutability, spellings,
};
use crate::table::{
    AddressV, NameTable, TableV, current_snapshot_spec, entry_id, head_index, head_views, local_of,
    snapshot_views,
};
use crate::validation::decl_names;

verus! {

broadcast use {
    crate::identity::reveal_local_view,
    crate::identity::reveal_address_view,
    crate::identity::reveal_id_view,
    crate::state::reveal_head_view,
    crate::state::reveal_snapshot_view,
    crate::state::reveal_revision_view,
    crate::state::reveal_digest_view,
    crate::state::reveal_generation_view,
    crate::state::reveal_resolved_view,
    crate::request::reveal_module_path_view,
    crate::request::reveal_name_path_view,
    crate::name::reveal_name_view,
    crate::table::reveal_table_view,
};

/// Whether the snapshot history has no room for another locator.
pub open spec fn history_full<Root>(t: TableV<Root>) -> bool {
    t.snapshots.len() >= u64::MAX
}

/// Provision table `address` with `mutability`, or check the mutability of
/// the table that already exists there.
pub open spec fn ensure_table_spec<Root>(
    t: TableV<Root>,
    address: AddressV<Root>,
    mutability: TableMutability,
) -> Result<TableV<Root>, ErrorV<Root>> {
    match head_index(t.heads, address) {
        Some(i) => if t.heads[i].mutability == mutability {
            Ok(t)
        } else {
            Err(ErrorV::TableMutabilityMismatch(address, t.heads[i].mutability, mutability))
        },
        None => if history_full(t) {
            Err(ErrorV::TableGenerationExhausted(address))
        } else {
            let d = t.snapshots.len() as u64;
            Ok(
                TableV {
                    revision: t.revision,
                    heads: t.heads.push(
                        HeadV {
                            address,
                            mutability,
                            generation: 0,
                            cursor: AllocationCursor::Next(LocalEncodedId::spec_new(0)),
                            current: d,
                        },
                    ),
                    snapshots: t.snapshots.push(
                        SnapshotV { address, generation: 0, entries: Seq::empty(), digest: d },
                    ),
                    receipts: t.receipts,
                },
            )
        },
    }
}

/// The outcome of allocating a table's declared spellings.
pub struct AllocV {
    pub entries: Seq<Seq<char>>,
    pub cursor: AllocationCursor,
    pub locals: Seq<u16>,
}

/// Allocate `names` in order against the table's `current` entries: a
/// spelling already present keeps its local ID; a new one takes the cursor's
/// next ID and is appended. `None` when the cursor is exhausted.
pub open spec fn allocate_spec(
    current: Seq<Seq<char>>,
    names: Seq<Seq<char>>,
    cursor: AllocationCursor,
) -> Option<AllocV>
    decreases names.len(),
{
    if names.len() == 0 {
        Some(AllocV { entries: current, cursor, locals: Seq::empty() })
    } else {
        match allocate_spec(current, names.drop_last(), cursor) {
            None => None,
            Some(a) => match local_of(current, names.last()) {
                Some(l) => Some(AllocV { entries: a.entries, cursor: a.cursor, locals: a.locals.push(l) }),
                None => match a.cursor {
                    AllocationCursor::Exhausted => None,
                    AllocationCursor::Next(l) => Some(
                        AllocV {
                            entries: a.entries.push(names.last()),
                            cursor: next_cursor(a.cursor),
                            locals: a.locals.push(l@),
                        },
                    ),
                },
            },
        }
    }
}

/// Once allocation fails on a prefix it fails on the whole list.
pub proof fn lemma_allocate_none(
    current: Seq<Seq<char>>,
    names: Seq<Seq<char>>,
    cursor: AllocationCursor,
    k: int,
)
    requires
        0 <= k <= names.len(),
        allocate_spec(current, names.subrange(0, k), cursor) is None,
    ensures
        allocate_spec(current, names, cursor) is None,
    decreases names.len() - k,
{
    if k < names.len() {
        let next = names.subrange(0, k + 1);
        assert(next.drop_last() =~= names.subrange(0, k));
        lemma_allocate_none(current, names, cursor, k + 1);
    } else {
        assert(names.subrange(0, k) =~= names);
    }
}

/// Allocate the declared spellings of one table and, when any spelling is
/// new, publish the table's next generation.
pub open spec fn apply_table_spec<Root>(
    t: TableV<Root>,
    address: AddressV<Root>,
    names: Seq<Seq<char>>,
) -> Result<(TableV<Root>, Seq<u16>), ErrorV<Root>> {
    match current_snapshot_spec(t, address) {
        Err(e) => Err(e),
        Ok(s) => {
            let i = head_index(t.heads, address)->0;
            match allocate_spec(s.entries, names, t.heads[i].cursor) {
                None => Err(ErrorV::TableCapacity(address)),
                Some(a) => if a.entries.len() == s.entries.len() {
                    Ok((t, a.locals))
                } else if s.generation >= u64::MAX || history_full(t) {
                    Err(ErrorV::TableGenerationExhausted(address))
                } else {
                    let d = t.snapshots.len() as u64;
                    let g = (s.generation + 1) as u64;
                    Ok(
                        (
                            TableV {
                                revision: t.revision,
                                heads: t.heads.update(
                                    i,
                                    HeadV {
                                        address: t.heads[i].address,
                                        mutability: t.heads[i].mutability,
                                        generation: g,
                                        cursor: a.cursor,
                                        current: d,
                                    },
                                ),
                                snapshots: t.snapshots.push(
                                    SnapshotV { address, generation: g, entries: a.entries, digest: d },
                                ),
                                receipts: t.receipts,
                            },
                            a.locals,
                        ),
                    )
                },
            }
        },
    }
}

/// The declaration results of one table: each spelling with the identity
/// allocated for it.
pub open spec fn table_resolved<Root>(
    address: AddressV<Root>,
    table: (Root, Seq<Seq<char>>),
    names: Seq<Seq<char>>,
    locals: Seq<u16>,
) -> Seq<ResolvedV<Root>> {
    Seq::new(
        names.len(),
        |k: int|
            ResolvedV {
                path: PathV { root: table.0, modules: table.1, spelling: names[k] },
                encoded_id: entry_id(address, locals[k] as int),
            },
    )
}

/// The integers of a sequence of local IDs.
pub open spec fn local_values(s: Seq<LocalEncodedId>) -> Seq<u16> {
    s.map_values(|l: LocalEncodedId| l@)
}

/// Apply one declaration list to table `address`: allocate its spellings,
/// then provision and apply the table of each module it declares, in order.
pub open spec fn apply_decls_spec<Root>(
    t: TableV<Root>,
    address: AddressV<Root>,
    table: (Root, Seq<Seq<char>>),
    ds: Seq<DeclV>,
) -> Result<(TableV<Root>, Seq<ResolvedV<Root>>), ErrorV<Root>>
    decreases ds, 1int, 0int,
{
    match apply_table_spec(t, address, decl_names(ds)) {
        Err(e) => Err(e),
        Ok((t1, locals)) => match apply_children_spec(t1, address, table, ds, locals, ds.len() as int) {
            Err(e) => Err(e),
            Ok((t2, nested)) => Ok((t2, table_resolved(address, table, decl_names(ds), locals) + nested)),
        },
    }
}

/// Provision and apply the module tables declared by the first `n`
/// declarations of `ds`, whose spellings were allocated `locals`.
pub open spec fn apply_children_spec<Root>(
    t: TableV<Root>,
    address: AddressV<Root>,
    table: (Root, Seq<Seq<char>>),
    ds: Seq<DeclV>,
    locals: Seq<u16>,
    n: int,
) -> Result<(TableV<Root>, Seq<ResolvedV<Root>>), ErrorV<Root>>
    decreases ds, 0int, n,
{
    if n <= 0 || n > ds.len() {
        Ok((t, Seq::empty()))
    } else {
        match apply_children_spec(t, address, table, ds, locals, n - 1) {
            Err(e) => Err(e),
            Ok((t1, r1)) => match ds[n - 1] {
                DeclV::Member(_) => Ok((t1, r1)),
                DeclV::Module(name, mutability, children) => {
                    let child = entry_id(address, locals[n - 1] as int);
                    match ensure_table_spec(t1, child, mutability) {
                        Err(e) => Err(e),
                        Ok(t2) => match apply_decls_spec(t2, child, (table.0, table.1.push(name)), children) {
                            Err(e) => Err(e),
                            Ok((t3, r3)) => Ok((t3, r1 + r3)),
                        },
                    }
                },
            },
        }
    }
}

/// A failure among the first `k` children is the failure of the first `n`.
pub proof fn lemma_children_error<Root>(
    t: TableV<Root>,
    address: AddressV<Root>,
    table: (Root, Seq<Seq<char>>),
    ds: Seq<DeclV>,
    locals: Seq<u16>,
    k: int,
    n: int,
)
    requires
        0 < k <= n <= ds.len(),
        apply_children_spec(t, address, table, ds, locals, k) is Err,
    ensures
        apply_children_spec(t, address, table, ds, locals, n) == apply_children_spec(
            t,
            address,
            table,
            ds,
            locals,
            k,
        ),
    decreases n - k,
{
    if n > k {
        lemma_children_error(t, address, table, ds, locals, k, n - 1);
    }
}

impl<Root: Ord + Copy> NameTable<Root> {
    /// The locator of the next snapshot appended to the history.
    fn next_locator(&self, address: &TableAddress<Root>) -> (result: Result<
        SnapshotDigest,
        NameTableError<Root>,
    >)
        ensures
            match result {
                Ok(d) => !history_full(self@) && d@ == self@.snapshots.len(),
                Err(e) => history_full(self@) && e@ == ErrorV::TableGenerationExhausted(address@),
            },
    {
        let len = self.snapshots.len();
        if (len as u64) < u64::MAX {
            Ok(SnapshotDigest(len as u64))
        } else {
            Err(NameTableError::TableGenerationExhausted { address: address.duplicate() })
        }
    }

    /// Provision a table, or check the mutability of the existing one.
    pub(crate) fn ensure_table(
        &mut self,
        address: &TableAddress<Root>,
        mutability: TableMutability,
    ) -> (result: Result<(), NameTableError<Root>>)
        requires
            root_laws::<Root>(),
        ensures
            match ensure_table_spec(old(self)@, address@, mutability) {
                Ok(t) => result is Ok && final(self)@ == t,
                Err(e) => result matches Err(r) && r@ == e,
            },
    {
        match self.find_head(address) {
            Some(i) => {
                let existing = self.heads[i].mutability;
                if same_mutability(existing, mutability) {
                    Ok(())
                } else {
                    Err(
                        NameTableError::TableMutabilityMismatch {
                            address: address.duplicate(),
                            existing,
                            submitted: mutability,
                        },
                    )
                }
            },
            None => {
                let digest = self.next_locator(address)?;
                let ghost before = *self;
                let entries: Vec<crate::name::Name> = Vec::new();
                let snapshot = ModuleTableSnapshot {
                    address: address.duplicate(),
                    generation: TableGeneration::zero(),
                    entries,
                    digest,
                };
                let head = ModuleTableHead {
                    address: address.duplicate(),
                    mutability,
                    generation: TableGeneration::zero(),
                    allocation_cursor: AllocationCursor::zero(),
                    current_snapshot: digest,
                };
                self.snapshots.push(snapshot);
                self.heads.push(head);
                proof {
                    assert(spellings(entries@) =~= Seq::<Seq<char>>::empty());
                    assert(head_views(self.heads@) =~= head_views(before.heads@).push(head@));
                    assert(snapshot_views(self.snapshots@) =~= snapshot_views(
                        before.snapshots@,
                    ).push(snapshot@));
                }
                Ok(())
            },
        }
    }

    /// Allocate the declared spellings of one table, record their results,
    /// and publish the table's next generation when a spelling is new.
    #[verifier::rlimit(40)]
    fn allocate_declarations(
        &mut self,
        address: &TableAddress<Root>,
        table_path: &ModulePath<Root>,
        declarations: &[Declaration],
        resolved: &mut Vec<ResolvedName<Root>>,
    ) -> (result: Result<Vec<LocalEncodedId>, NameTableError<Root>>)
        requires
            root_laws::<Root>(),
        ensures
            match apply_table_spec(old(self)@, address@, decl_names(decls_view(declarations@))) {
                Ok((t, locals)) => result matches Ok(v) && local_values(v@) == locals
                    && v@.len() == declarations@.len() && final(self)@ == t && resolved_views(final(resolved)@) == resolved_views(
                    old(resolved)@,
                ) + table_resolved(
                    address@,
                    table_path@,
                    decl_names(decls_view(declarations@)),
                    locals,
                ),
                Err(e) => result matches Err(r) && r@ == e,
            },
    {
        let ghost t0 = self@;
        let ghost r0 = resolved_views(resolved@);
        let ghost dsv = decls_view(declarations@);
        let ghost names = decl_names(dsv);
        proof {
            lemma_decls_view_len(declarations@);
        }
        let (h, p) = self.locate(address)?;
        let ghost s = t0.snapshots[p as int];
        let ghost cursor0 = t0.heads[h as int].cursor;
        let mut entries = copy_names(self.snapshots[p].entries.as_slice());
        let mut cursor = self.heads[h].allocation_cursor;
        let mut locals: Vec<LocalEncodedId> = Vec::new();
        proof {
            assert(names.subrange(0, 0) =~= Seq::<Seq<char>>::empty());
            assert(local_values(locals@) =~= Seq::<u16>::empty());
            assert(table_resolved(address@, table_path@, names.subrange(0, 0), Seq::empty())
                =~= Seq::<ResolvedV<Root>>::empty());
            assert(resolved_views(resolved@) =~= r0 + Seq::<ResolvedV<Root>>::empty());
        }
        let mut k: usize = 0;
        while k < declarations.len()
            invariant
                root_laws::<Root>(),
                self@ == t0,
                dsv == decls_view(declarations@),
                names == decl_names(dsv),
                dsv.len() == declarations@.len(),
                h < t0.heads.len(),
                p < t0.snapshots.len(),
                s == t0.snapshots[p as int],
                s == self.snapshots@[p as int]@,
                current_snapshot_spec(t0, address@) == Ok::<SnapshotV<Root>, ErrorV<Root>>(s),
                head_index(t0.heads, address@) == Some(h as int),
                cursor0 == t0.heads[h as int].cursor,
                k <= declarations@.len(),
                locals@.len() == k,
                allocate_spec(s.entries, names.subrange(0, k as int), cursor0) == Some(
                    AllocV { entries: spellings(entries@), cursor, locals: local_values(locals@) },
                ),
                resolved_views(resolved@) == r0 + table_resolved(
                    address@,
                    table_path@,
                    names.subrange(0, k as int),
                    local_values(locals@),
                ),
            decreases declarations@.len() - k,
        {
            proof {
                lemma_decl_view_at(declarations@, k as int);
            }
            let name = declarations[k].name();
            let ghost prefix = names.subrange(0, k + 1);
            proof {
                assert(prefix.drop_last() =~= names.subrange(0, k as int));
                assert(prefix.last() == name@);
            }
            let ghost before_entries = spellings(entries@);
            let local = match self.snapshots[p].lookup_local(name) {
                Some(local) => {
                    proof {
                        crate::table::lemma_local_of(s.entries, name@, local@ as int);
                    }
                    local
                },
                None => {
                    proof {
                        crate::table::lemma_local_of_none(s.entries, name@);
                    }
                    match cursor.allocate() {
                        Some((local, next)) => {
                            entries.push(name.duplicate());
                            proof {
                                assert(spellings(entries@) =~= before_entries.push(name@));
                            }
                            cursor = next;
                            local
                        },
                        None => {
                            proof {
                                assert(local_of(s.entries, name@) is None);
                                assert(allocate_spec(s.entries, prefix, cursor0) is None);
                                lemma_allocate_none(s.entries, names, cursor0, k + 1);
                                assert(current_snapshot_spec(t0, address@) == Ok::<SnapshotV<Root>, ErrorV<Root>>(s));
                                assert(head_index(t0.heads, address@)->0 == h);
                                assert(allocate_spec(s.entries, names, t0.heads[h as int].cursor) is None);
                            }
                            return Err(NameTableError::TableCapacity { address: address.duplicate() });
                        },
                    }
                },
            };
            let ghost before_locals = local_values(locals@);
            let ghost before_resolved = resolved_views(resolved@);
            locals.push(local);
            let item = ResolvedName {
                path: NamePath::new(table_path.duplicate(), name.duplicate()),
                encoded_id: address.entry(local),
            };
            resolved.push(item);
            proof {
                crate::identity::lemma_local_spec_new();
                assert(local == LocalEncodedId::spec_new(local@));
                assert(local_values(locals@) =~= before_locals.push(local@));
                assert(resolved_views(resolved@) =~= before_resolved.push(item@));
                let lv = local_values(locals@);
                assert(item@.encoded_id == entry_id(address@, lv[k as int] as int));
                assert(item@.path == PathV { root: table_path@.0, modules: table_path@.1, spelling: prefix[k as int] });
                assert forall|j: int| 0 <= j < k implies #[trigger] lv[j] == before_locals[j] && prefix[j] == names.subrange(0, k as int)[j] by {}
                assert(table_resolved(address@, table_path@, prefix, local_values(locals@))
                    =~= table_resolved(
                    address@,
                    table_path@,
                    names.subrange(0, k as int),
                    before_locals,
                ).push(item@));
            }
            k = k + 1;
        }
        proof {
            assert(names.subrange(0, k as int) =~= names);
        }
        if entries.len() != self.snapshots[p].entries.len() {
            let generation = match self.snapshots[p].generation.next() {
                Some(g) => g,
                None => {
                    return Err(
                        NameTableError::TableGenerationExhausted { address: address.duplicate() },
                    )
                },
            };
            let digest = self.next_locator(address)?;
            let ghost before = *self;
            let head = ModuleTableHead {
                address: self.heads[h].address.duplicate(),
                mutability: self.heads[h].mutability,
                generation,
                allocation_cursor: cursor,
                current_snapshot: digest,
            };
            let snapshot = ModuleTableSnapshot {
                address: address.duplicate(),
                generation,
                entries,
                digest,
            };
            self.snapshots.push(snapshot);
            self.heads.set(h, head);
            proof {
                assert(head_views(self.heads@) =~= head_views(before.heads@).update(
                    h as int,
                    head@,
                ));
                assert(snapshot_views(self.snapshots@) =~= snapshot_views(
                    before.snapshots@,
                ).push(snapshot@));
            }
        }
        Ok(locals)
    }

    /// Apply one declaration list to a table and, in turn, to the table of
    /// each module it declares.
    #[verifier::rlimit(80)]
    pub(crate) fn apply_declarations(
        &mut self,
        address: &TableAddress<Root>,
        table_path: &ModulePath<Root>,
        declarations: &[Declaration],
        resolved: &mut Vec<ResolvedName<Root>>,
    ) -> (result: Result<(), NameTableError<Root>>)
        requires
            root_laws::<Root>(),
        ensures
            match apply_decls_spec(old(self)@, address@, table_path@, decls_view(declarations@)) {
                Ok((t, r)) => result is Ok && final(self)@ == t && resolved_views(final(resolved)@)
                    == resolved_views(old(resolved)@) + r,
                Err(e) => result matches Err(x) && x@ == e,
            },
        decreases declarations@,
    {
        let ghost dsv = decls_view(declarations@);
        let ghost r0 = resolved_views(resolved@);
        proof {
            lemma_decls_view_len(declarations@);
        }
        let locals = self.allocate_declarations(address, table_path, declarations, resolved)?;
        let ghost t1 = self@;
        let ghost r1 = resolved_views(resolved@);
        let ghost lv = local_values(locals@);
        let ghost mut nested: Seq<ResolvedV<Root>> = Seq::empty();
        proof {
            assert(resolved_views(resolved@) =~= r1 + nested);
        }
        let mut k: usize = 0;
        while k < declarations.len()
            invariant
                root_laws::<Root>(),
                dsv == decls_view(declarations@),
                dsv.len() == declarations@.len(),
                lv == local_values(locals@),
                locals@.len() == dsv.len(),
                apply_table_spec(old(self)@, address@, decl_names(dsv)) == Ok::<
                    (TableV<Root>, Seq<u16>),
                    ErrorV<Root>,
                >((t1, lv)),
                r0 == resolved_views(old(resolved)@),
                r1 == r0 + table_resolved(address@, table_path@, decl_names(dsv), lv),
                k <= declarations@.len(),
                apply_children_spec(t1, address@, table_path@, dsv, lv, k as int) == Ok::<
                    (TableV<Root>, Seq<ResolvedV<Root>>),
                    ErrorV<Root>,
                >((self@, nested)),
                resolved_views(resolved@) == r1 + nested,
            decreases declarations@.len() - k,
        {
            proof {
                lemma_decl_view_at(declarations@, k as int);
            }
            match &declarations[k] {
                Declaration::Member(_) => {},
                Declaration::Module(module) => {
                    proof {
                        assert(dsv[k as int] == DeclV::Module(module.name@, module.mutability, decls_view(module.declarations@)));
                    }
                    let child = address.child(locals[k]);
                    proof {
                        crate::identity::lemma_local_spec_new();
                        assert(locals@[k as int] == LocalEncodedId::spec_new(lv[k as int]));
                        assert(child@ == entry_id(address@, lv[k as int] as int));
                    }
                    let ghost before = self@;
                    match self.ensure_table(&child, module.mutability) {
                        Ok(()) => {},
                        Err(e) => {
                            proof {
                                lemma_children_error(t1, address@, table_path@, dsv, lv, k + 1, dsv.len() as int);
                            }
                            return Err(e);
                        },
                    }
                    let mut modules = copy_names(table_path.modules.as_slice());
                    let ghost before_modules = spellings(modules@);
                    modules.push(module.name.duplicate());
                    let child_path = ModulePath::new(table_path.root, modules);
                    proof {
                        assert(spellings(modules@) =~= before_modules.push(module.name@));
                        assert(child_path@ == (table_path@.0, table_path@.1.push(module.name@)));
                        assert(decreases_to!(declarations@ => declarations@[k as int]));
                    }
                    let ghost before_resolved = resolved_views(resolved@);
                    match self.apply_declarations(&child, &child_path, module.declarations.as_slice(), resolved) {
                        Ok(()) => {},
                        Err(e) => {
                            proof {
                                assert(apply_children_spec(t1, address@, table_path@, dsv, lv, k + 1) is Err);
                                lemma_children_error(t1, address@, table_path@, dsv, lv, k + 1, dsv.len() as int);
                            }
                            return Err(e);
                        },
                    }
                    proof {
                        let r3 = resolved_views(resolved@).subrange(before_resolved.len() as int, resolved_views(resolved@).len() as int);
                        let spec_r3 = apply_decls_spec(
                            ensure_table_spec(before, child@, module.mutability)->Ok_0,
                            child@,
                            child_path@,
                            decls_view(module.declarations@),
                        )->Ok_0.1;
                        assert(resolved_views(resolved@) == before_resolved + spec_r3);
                        assert(r1 + (nested + spec_r3) =~= r1 + nested + spec_r3);
                        nested = nested + spec_r3;
                    }
                },
            }
            k = k + 1;
        }
        proof {
            assert(r0 + table_resolved(address@, table_path@, decl_names(dsv), lv) + nested
                =~= r0 + (table_resolved(address@, table_path@, decl_names(dsv), lv) + nested));
        }
        Ok(())
    }
}

} // verus!
