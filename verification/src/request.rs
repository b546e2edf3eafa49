//! Typed declaration, reference, and rename requests.

use vstd::prelude::*;

use crate::identity::{EncodedId, LocalEncodedId};
use crate::name::Name;
use crate::state::{OperationKey, TableMutability, spellings, copy_names};

verus! {

/// The view of one declaration: its spelling and, for a module, the
/// mutability and declarations of the child table it owns.
pub enum DeclV {
    Member(Seq<char>),
    Module(Seq<char>, TableMutability, Seq<DeclV>),
}

impl DeclV {
    /// The exact spelling declared.
    pub open spec fn name(self) -> Seq<char> {
        match self {
            DeclV::Member(name) => name,
            DeclV::Module(name, _, _) => name,
        }
    }
}

/// One declaration in its owning module table.
///
/// `Module` owns a child table in the submitted graph. The corresponding
/// persisted ownership remains structural: the child table exists at the
/// allocated entry's full chain.
#[derive(Debug, PartialEq, Eq, PartialOrd, Ord)]
pub enum Declaration {
    /// A declaration that introduces no child table in this seal.
    Member(Name),
    /// A declaration that owns a nested module table.
    Module(ModuleDeclaration),
}

/// The view of one declaration.
pub closed spec fn decl_view(d: Declaration) -> DeclV
    decreases d, 0int,
{
    match d {
        Declaration::Member(name) => DeclV::Member(name@),
        Declaration::Module(module) => DeclV::Module(
            module.name@,
            module.mutability,
            decls_view(module.declarations@),
        ),
    }
}

/// The views of a sequence of declarations.
pub closed spec fn decls_view(s: Seq<Declaration>) -> Seq<DeclV>
    decreases s, 1int,
{
    Seq::new(
        s.len(),
        |i: int|
            if 0 <= i < s.len() {
                decl_view(s[i])
            } else {
                DeclV::Member(Seq::empty())
            },
    )
}

pub(crate) proof fn reveal_decl_views()
    ensures
        forall|d: Declaration| #[trigger]
            decl_view(d) == match d {
                Declaration::Member(name) => DeclV::Member(name@),
                Declaration::Module(module) => DeclV::Module(
                    module.name@,
                    module.mutability,
                    decls_view(module.declarations@),
                ),
            },
        forall|s: Seq<Declaration>| #[trigger] decls_view(s).len() == s.len(),
        forall|s: Seq<Declaration>, i: int|
            0 <= i < s.len() ==> #[trigger] decls_view(s)[i] == decl_view(s[i]),
{
    assert forall|s: Seq<Declaration>, i: int| 0 <= i < s.len() implies #[trigger] decls_view(
        s,
    )[i] == decl_view(s[i]) by {
        reveal(decls_view);
    }
    assert forall|s: Seq<Declaration>| #[trigger] decls_view(s).len() == s.len() by {
        reveal(decls_view);
    }
    assert forall|d: Declaration| #[trigger]
        decl_view(d) == match d {
            Declaration::Member(name) => DeclV::Member(name@),
            Declaration::Module(module) => DeclV::Module(
                module.name@,
                module.mutability,
                decls_view(module.declarations@),
            ),
        } by {
        reveal(decl_view);
    }
}

/// A list of declaration views is as long as the list.
pub(crate) proof fn lemma_decls_view_len(s: Seq<Declaration>)
    ensures
        decls_view(s).len() == s.len(),
{
    reveal(decls_view);
}

/// The view of one declaration of a list, unfolded once.
pub(crate) proof fn lemma_decl_view_at(s: Seq<Declaration>, i: int)
    requires
        0 <= i < s.len(),
    ensures
        decls_view(s).len() == s.len(),
        decls_view(s)[i] == decl_view(s[i]),
        decl_view(s[i]) == match s[i] {
            Declaration::Member(name) => DeclV::Member(name@),
            Declaration::Module(module) => DeclV::Module(
                module.name@,
                module.mutability,
                decls_view(module.declarations@),
            ),
        },
{
    reveal(decls_view);
    reveal(decl_view);
}

impl View for Declaration {
    type V = DeclV;

    open spec fn view(&self) -> DeclV {
        decl_view(*self)
    }
}

/// A declaration's view is that of what it wraps: a member is its spelling, a
/// module declaration is the module's own view.
pub proof fn lemma_declaration_view(d: Declaration)
    ensures
        d matches Declaration::Member(name) ==> d@ == DeclV::Member(name@),
        d matches Declaration::Module(module) ==> d@ == module@,
{
    reveal_decl_views();
}

/// An exact copy of one declaration tree.
pub(crate) fn copy_declaration(d: &Declaration) -> (copy: Declaration)
    ensures
        copy@ == d@,
    decreases d, 0int,
{
    proof {
        reveal_decl_views();
    }
    match d {
        Declaration::Member(name) => Declaration::Member(name.duplicate()),
        Declaration::Module(module) => {
            let declarations = copy_declarations(module.declarations.as_slice());
            Declaration::Module(
                ModuleDeclaration {
                    name: module.name.duplicate(),
                    mutability: module.mutability,
                    declarations,
                },
            )
        },
    }
}

/// An exact copy of a list of declaration trees.
pub(crate) fn copy_declarations(ds: &[Declaration]) -> (copy: Vec<Declaration>)
    ensures
        decls_view(copy@) == decls_view(ds@),
    decreases ds@, 1int,
{
    proof {
        reveal_decl_views();
    }
    let mut copy: Vec<Declaration> = Vec::with_capacity(ds.len());
    let mut i: usize = 0;
    while i < ds.len()
        invariant
            i <= ds@.len(),
            copy@.len() == i,
            forall|k: int| 0 <= k < i ==> decl_view(#[trigger] copy@[k]) == decl_view(ds@[k]),
        decreases ds@.len() - i,
    {
        proof {
            assert(decreases_to!(ds@ => ds@[i as int]));
        }
        copy.push(copy_declaration(&ds[i]));
        i = i + 1;
    }
    proof {
        assert(decls_view(copy@) =~= decls_view(ds@));
    }
    copy
}

impl Clone for Declaration {
    fn clone(&self) -> (copy: Self)
        ensures
            copy@ == self@,
    {
        copy_declaration(self)
    }
}

impl Clone for ModuleDeclaration {
    fn clone(&self) -> (copy: Self)
        ensures
            copy@ == self@,
    {
        ModuleDeclaration {
            name: self.name.duplicate(),
            mutability: self.mutability,
            declarations: copy_declarations(self.declarations.as_slice()),
        }
    }
}

impl Declaration {
    /// The exact spelling allocated or reused in the owning table.
    pub fn name(&self) -> (name: &Name)
        ensures
            name@ == self@.name(),
    {
        proof {
            reveal_decl_views();
        }
        match self {
            Declaration::Member(name) => name,
            Declaration::Module(module) => &module.name,
        }
    }
}

/// One module declaration and the table it owns.
#[derive(Debug, PartialEq, Eq, PartialOrd, Ord)]
pub struct ModuleDeclaration {
    pub(crate) name: Name,
    pub(crate) mutability: TableMutability,
    pub(crate) declarations: Vec<Declaration>,
}

impl View for ModuleDeclaration {
    type V = DeclV;

    closed spec fn view(&self) -> DeclV {
        DeclV::Module(self.name@, self.mutability, decls_view(self.declarations@))
    }
}

impl ModuleDeclaration {
    /// Construct one nested module declaration.
    pub fn new(name: Name, mutability: TableMutability, declarations: Vec<Declaration>) -> (module:
        Self)
        ensures
            module@ == DeclV::Module(name@, mutability, decls_view(declarations@)),
    {
        ModuleDeclaration { name, mutability, declarations }
    }

    /// The module's exact spelling in its containing table.
    pub fn name(&self) -> (name: &Name)
        ensures
            name@ == self@.name(),
    {
        &self.name
    }

    /// The mutability provisioned on the child table.
    pub fn mutability(&self) -> (mutability: TableMutability)
        ensures
            self@ matches DeclV::Module(_, m, _) && m == mutability,
    {
        self.mutability
    }

    /// Immediate declarations submitted for the child table.
    pub fn declarations(&self) -> (declarations: &[Declaration])
        ensures
            self@ matches DeclV::Module(_, _, ds) && ds == decls_view(declarations@),
    {
        self.declarations.as_slice()
    }
}

/// The view of one submitted root graph.
pub struct RootDeclV<Root> {
    pub root: Root,
    pub mutability: TableMutability,
    pub declarations: Seq<DeclV>,
}

/// The submitted declaration graph beneath one root table.
#[derive(Clone, Debug, PartialEq, Eq, PartialOrd, Ord)]
pub struct RootDeclaration<Root> {
    pub(crate) root: Root,
    pub(crate) mutability: TableMutability,
    pub(crate) declarations: Vec<Declaration>,
}

impl<Root> View for RootDeclaration<Root> {
    type V = RootDeclV<Root>;

    closed spec fn view(&self) -> RootDeclV<Root> {
        RootDeclV {
            root: self.root,
            mutability: self.mutability,
            declarations: decls_view(self.declarations@),
        }
    }
}

pub(crate) broadcast proof fn reveal_root_decl_view<Root>(root: RootDeclaration<Root>)
    ensures
        #[trigger] root@ == (RootDeclV {
            root: root.root,
            mutability: root.mutability,
            declarations: decls_view(root.declarations@),
        }),
{
}

impl<Root> RootDeclaration<Root> {
    /// Construct one root-table declaration graph.
    pub fn new(root: Root, mutability: TableMutability, declarations: Vec<Declaration>) -> (decl:
        Self)
        ensures
            decl@ == (RootDeclV { root, mutability, declarations: decls_view(declarations@) }),
    {
        RootDeclaration { root, mutability, declarations }
    }

    /// The externally supplied root selector.
    pub fn root(&self) -> (root: &Root)
        ensures
            *root == self@.root,
    {
        &self.root
    }

    /// The mutability provisioned on the root table.
    pub fn mutability(&self) -> (mutability: TableMutability)
        ensures
            mutability == self@.mutability,
    {
        self.mutability
    }

    /// Immediate declarations submitted for the root table.
    pub fn declarations(&self) -> (declarations: &[Declaration])
        ensures
            decls_view(declarations@) == self@.declarations,
    {
        self.declarations.as_slice()
    }
}

/// A module table named textually in a seal request.
///
/// The path is used only at the declaration/reference boundary. Stored state
/// and returned identities use integer chains.
#[derive(Clone, Debug, PartialEq, Eq, PartialOrd, Ord)]
pub struct ModulePath<Root> {
    pub(crate) root: Root,
    pub(crate) modules: Vec<Name>,
}

impl<Root> View for ModulePath<Root> {
    type V = (Root, Seq<Seq<char>>);

    closed spec fn view(&self) -> (Root, Seq<Seq<char>>) {
        (self.root, spellings(self.modules@))
    }
}

pub(crate) broadcast proof fn reveal_module_path_view<Root>(path: ModulePath<Root>)
    ensures
        #[trigger] path@ == (path.root, spellings(path.modules@)),
{
}

impl<Root> ModulePath<Root> {
    /// Construct a textual module path. An empty path names the root table.
    pub fn new(root: Root, modules: Vec<Name>) -> (path: Self)
        ensures
            path@ == (root, spellings(modules@)),
    {
        ModulePath { root, modules }
    }

    /// The root-table selector.
    pub fn root(&self) -> (root: &Root)
        ensures
            *root == self@.0,
    {
        &self.root
    }

    /// The module spellings traversed from the root table.
    pub fn modules(&self) -> (modules: &[Name])
        ensures
            spellings(modules@) == self@.1,
    {
        self.modules.as_slice()
    }
}

impl<Root: Copy> ModulePath<Root> {
    /// An exact copy of this path.
    pub(crate) fn duplicate(&self) -> (copy: Self)
        ensures
            copy@ == self@,
    {
        ModulePath { root: self.root, modules: copy_names(self.modules.as_slice()) }
    }
}

/// The view of one textual name path: root, module spellings and final spelling.
pub struct PathV<Root> {
    pub root: Root,
    pub modules: Seq<Seq<char>>,
    pub spelling: Seq<char>,
}

/// One exact name addressed textually for declaration results or references.
#[derive(Clone, Debug, PartialEq, Eq, PartialOrd, Ord)]
pub struct NamePath<Root> {
    pub(crate) table: ModulePath<Root>,
    pub(crate) spelling: Name,
}

impl<Root> View for NamePath<Root> {
    type V = PathV<Root>;

    closed spec fn view(&self) -> PathV<Root> {
        PathV { root: self.table@.0, modules: self.table@.1, spelling: self.spelling@ }
    }
}

pub(crate) broadcast proof fn reveal_name_path_view<Root>(path: NamePath<Root>)
    ensures
        #[trigger] path@ == (PathV {
            root: path.table@.0,
            modules: path.table@.1,
            spelling: path.spelling@,
        }),
{
}

impl<Root> NamePath<Root> {
    /// Construct a name path.
    pub fn new(table: ModulePath<Root>, spelling: Name) -> (path: Self)
        ensures
            path@ == (PathV { root: table@.0, modules: table@.1, spelling: spelling@ }),
    {
        NamePath { table, spelling }
    }

    /// The textually named owning table.
    pub fn table(&self) -> (table: &ModulePath<Root>)
        ensures
            table@ == (self@.root, self@.modules),
    {
        &self.table
    }

    /// The exact final spelling.
    pub fn spelling(&self) -> (spelling: &Name)
        ensures
            spelling@ == self@.spelling,
    {
        &self.spelling
    }
}

impl<Root: Copy> NamePath<Root> {
    /// An exact copy of this path.
    pub(crate) fn duplicate(&self) -> (copy: Self)
        ensures
            copy@ == self@,
    {
        NamePath { table: self.table.duplicate(), spelling: self.spelling.duplicate() }
    }
}

/// One lookup-only reference submitted with a seal.
#[derive(Clone, Debug, PartialEq, Eq, PartialOrd, Ord)]
pub struct NameReference<Root>(pub(crate) NamePath<Root>);

impl<Root> View for NameReference<Root> {
    type V = PathV<Root>;

    closed spec fn view(&self) -> PathV<Root> {
        self.0@
    }
}

pub(crate) broadcast proof fn reveal_reference_view<Root>(reference: NameReference<Root>)
    ensures
        #[trigger] reference@ == reference.0@,
{
}

impl<Root> NameReference<Root> {
    /// Construct a lookup-only reference.
    pub fn new(table: ModulePath<Root>, spelling: Name) -> (reference: Self)
        ensures
            reference@ == (PathV { root: table@.0, modules: table@.1, spelling: spelling@ }),
    {
        NameReference(NamePath::new(table, spelling))
    }

    /// The referenced textual path.
    pub fn path(&self) -> (path: &NamePath<Root>)
        ensures
            path@ == self@,
    {
        &self.0
    }
}

impl<Root: Copy> NameReference<Root> {
    /// An exact copy of this reference.
    pub(crate) fn duplicate(&self) -> (copy: Self)
        ensures
            copy@ == self@,
    {
        NameReference(self.0.duplicate())
    }
}

/// The views of a sequence of root graphs.
pub open spec fn root_decl_views<Root>(s: Seq<RootDeclaration<Root>>) -> Seq<RootDeclV<Root>> {
    s.map_values(|r: RootDeclaration<Root>| r@)
}

/// The views of a sequence of references.
pub open spec fn reference_views<Root>(s: Seq<NameReference<Root>>) -> Seq<PathV<Root>> {
    s.map_values(|r: NameReference<Root>| r@)
}

/// The view of one seal request.
pub struct SealRequestV<Root> {
    pub operation_key: Seq<u8>,
    pub roots: Seq<RootDeclV<Root>>,
    pub references: Seq<PathV<Root>>,
}

/// One atomic nested seal request.
#[derive(Clone, Debug, PartialEq, Eq)]
pub struct SealRequest<Root> {
    pub(crate) operation_key: OperationKey,
    pub(crate) roots: Vec<RootDeclaration<Root>>,
    pub(crate) references: Vec<NameReference<Root>>,
}

impl<Root> View for SealRequest<Root> {
    type V = SealRequestV<Root>;

    closed spec fn view(&self) -> SealRequestV<Root> {
        SealRequestV {
            operation_key: self.operation_key@,
            roots: root_decl_views(self.roots@),
            references: reference_views(self.references@),
        }
    }
}

pub(crate) broadcast proof fn reveal_seal_request_view<Root>(request: SealRequest<Root>)
    ensures
        #[trigger] request@ == (SealRequestV {
            operation_key: request.operation_key@,
            roots: root_decl_views(request.roots@),
            references: reference_views(request.references@),
        }),
{
}

impl<Root> SealRequest<Root> {
    /// Construct a seal request.
    pub fn new(
        operation_key: OperationKey,
        roots: Vec<RootDeclaration<Root>>,
        references: Vec<NameReference<Root>>,
    ) -> (request: Self)
        ensures
            request@ == (SealRequestV {
                operation_key: operation_key@,
                roots: root_decl_views(roots@),
                references: reference_views(references@),
            }),
    {
        SealRequest { operation_key, roots, references }
    }

    /// The idempotency key.
    pub fn operation_key(&self) -> (key: OperationKey)
        ensures
            key@ == self@.operation_key,
    {
        self.operation_key
    }

    /// Submitted root declaration graphs.
    pub fn roots(&self) -> (roots: &[RootDeclaration<Root>])
        ensures
            root_decl_views(roots@) == self@.roots,
    {
        self.roots.as_slice()
    }

    /// Lookup-only references.
    pub fn references(&self) -> (references: &[NameReference<Root>])
        ensures
            reference_views(references@) == self@.references,
    {
        self.references.as_slice()
    }
}

/// The view of one rename request.
pub struct RenameRequestV<Root> {
    pub operation_key: Seq<u8>,
    pub target: (Root, Seq<LocalEncodedId>),
    pub new_spelling: Seq<char>,
}

/// One identity-preserving spelling edit.
#[derive(Clone, Debug, PartialEq, Eq)]
pub struct RenameRequest<Root> {
    pub(crate) operation_key: OperationKey,
    pub(crate) target: EncodedId<Root>,
    pub(crate) new_spelling: Name,
}

impl<Root> View for RenameRequest<Root> {
    type V = RenameRequestV<Root>;

    closed spec fn view(&self) -> RenameRequestV<Root> {
        RenameRequestV {
            operation_key: self.operation_key@,
            target: self.target@,
            new_spelling: self.new_spelling@,
        }
    }
}

pub(crate) broadcast proof fn reveal_rename_request_view<Root>(request: RenameRequest<Root>)
    ensures
        #[trigger] request@ == (RenameRequestV {
            operation_key: request.operation_key@,
            target: request.target@,
            new_spelling: request.new_spelling@,
        }),
{
}

impl<Root> RenameRequest<Root> {
    /// Construct one operational rename.
    pub fn new(operation_key: OperationKey, target: EncodedId<Root>, new_spelling: Name) -> (request:
        Self)
        ensures
            request@ == (RenameRequestV {
                operation_key: operation_key@,
                target: target@,
                new_spelling: new_spelling@,
            }),
    {
        RenameRequest { operation_key, target, new_spelling }
    }

    /// The idempotency key.
    pub fn operation_key(&self) -> (key: OperationKey)
        ensures
            key@ == self@.operation_key,
    {
        self.operation_key
    }

    /// The unchanged target identity.
    pub fn target(&self) -> (target: &EncodedId<Root>)
        ensures
            target@ == self@.target,
    {
        &self.target
    }

    /// The exact replacement spelling.
    pub fn new_spelling(&self) -> (spelling: &Name)
        ensures
            spelling@ == self@.new_spelling,
    {
        &self.new_spelling
    }
}

} // verus!
