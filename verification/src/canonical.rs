//! The canonical, order-independent form of a seal request, which serves as
//! its request digest.

use vstd::prelude::*;

use crate::name::{Name, name_order, name_order_fn, lemma_name_order_laws};
use crate::order::{
    CanonicalOrder, lex_order, lemma_lex_order_laws, leq_of, order_laws, sign_laws, views,
    order_of, sort_canonical, same_sequence, lemma_sorted_is_sort_by,
};
use crate::request::{
    DeclV, Declaration, ModuleDeclaration, NameReference, PathV, decl_view, RootDeclV, SealRequest,
    SealRequestV, decls_view, reveal_decl_views, reveal_name_path_view, reveal_reference_view,
    reveal_root_decl_view, reveal_seal_request_view, reveal_module_path_view, root_decl_views,
    reference_views,
};
use crate::root_order::{compare_roots, lemma_root_order_laws, root_laws, root_order, root_order_fn};
use crate::state::{TableMutability, spellings, copy_names};

verus! {

broadcast use {
    crate::name::reveal_name_view,
    reveal_name_path_view,
    reveal_reference_view,
    reveal_root_decl_view,
    reveal_seal_request_view,
    reveal_module_path_view,
};

/// Lexicographic combination of two three-way comparisons.
pub open spec fn then_order(first: int, second: int) -> int {
    if first != 0 {
        first
    } else {
        second
    }
}

pub proof fn lemma_then_sign_laws<C>(f: spec_fn(C, C) -> int, g: spec_fn(C, C) -> int)
    requires
        sign_laws(f),
        sign_laws(g),
    ensures
        sign_laws(|x: C, y: C| then_order(f(x, y), g(x, y))),
{
    let h = |x: C, y: C| then_order(f(x, y), g(x, y));
    assert forall|x: C, y: C| #![trigger h(x, y)] -1 <= h(x, y) <= 1 && h(x, y) == -h(y, x) by {
        assert(f(x, y) == -f(y, x));
        assert(g(x, y) == -g(y, x));
    }
    assert forall|x: C, y: C, z: C| #![trigger h(x, y), h(y, z)] h(x, y) <= 0 && h(y, z) <= 0
        implies h(x, z) <= 0 by {
        assert(f(x, y) == -f(y, x));
        assert(f(y, z) == -f(z, y));
        assert(f(x, z) == -f(z, x));
        assert(f(x, y) <= 0 && f(y, z) <= 0 ==> f(x, z) <= 0);
        assert(f(y, z) <= 0 && f(z, x) <= 0 ==> f(y, x) <= 0);
        assert(f(z, x) <= 0 && f(x, y) <= 0 ==> f(z, y) <= 0);
        assert(g(x, y) <= 0 && g(y, z) <= 0 ==> g(x, z) <= 0);
    }
}

pub proof fn lemma_project_sign_laws<A, C>(f: spec_fn(A, A) -> int, p: spec_fn(C) -> A)
    requires
        sign_laws(f),
    ensures
        sign_laws(|x: C, y: C| f(p(x), p(y))),
{
    let h = |x: C, y: C| f(p(x), p(y));
    assert forall|x: C, y: C| #![trigger h(x, y)] -1 <= h(x, y) <= 1 && h(x, y) == -h(y, x) by {
        assert(f(p(x), p(y)) == -f(p(y), p(x)));
    }
    assert forall|x: C, y: C, z: C| #![trigger h(x, y), h(y, z)] h(x, y) <= 0 && h(y, z) <= 0
        implies h(x, z) <= 0 by {
        assert(f(p(x), p(y)) <= 0 && f(p(y), p(z)) <= 0 ==> f(p(x), p(z)) <= 0);
    }
}

/// Order on mutabilities: `Mutable` before `Immutable`.
pub open spec fn mutability_rank(m: TableMutability) -> int {
    match m {
        TableMutability::Mutable => 0,
        TableMutability::Immutable => 1,
    }
}

pub open spec fn mutability_order(a: TableMutability, b: TableMutability) -> int {
    crate::order::int_order(mutability_rank(a), mutability_rank(b))
}

/// Order on optional child mutabilities: `None` first.
pub open spec fn child_rank(m: Option<TableMutability>) -> int {
    match m {
        None => 0,
        Some(m) => 1 + mutability_rank(m),
    }
}

pub open spec fn child_order(a: Option<TableMutability>, b: Option<TableMutability>) -> int {
    crate::order::int_order(child_rank(a), child_rank(b))
}

pub proof fn lemma_small_orders()
    ensures
        order_laws(|a: TableMutability, b: TableMutability| mutability_order(a, b)),
        order_laws(|a: Option<TableMutability>, b: Option<TableMutability>| child_order(a, b)),
{
    let f = |a: TableMutability, b: TableMutability| mutability_order(a, b);
    assert forall|a: TableMutability, b: TableMutability| #![trigger f(a, b)] f(a, b) == 0 <==> a
        == b by {
        match a {
            TableMutability::Mutable => {},
            TableMutability::Immutable => {},
        }
        match b {
            TableMutability::Mutable => {},
            TableMutability::Immutable => {},
        }
    }
    let g = |a: Option<TableMutability>, b: Option<TableMutability>| child_order(a, b);
    assert forall|a: Option<TableMutability>, b: Option<TableMutability>| #![trigger g(a, b)] g(
        a,
        b,
    ) == 0 <==> a == b by {
        match a {
            None => {},
            Some(TableMutability::Mutable) => {},
            Some(TableMutability::Immutable) => {},
        }
        match b {
            None => {},
            Some(TableMutability::Mutable) => {},
            Some(TableMutability::Immutable) => {},
        }
    }
}

/// Lexicographic order on module spelling paths.
pub open spec fn names_order(a: Seq<Seq<char>>, b: Seq<Seq<char>>) -> int {
    lex_order(a, b, name_order_fn())
}

pub proof fn lemma_names_order_laws()
    ensures
        order_laws(|a: Seq<Seq<char>>, b: Seq<Seq<char>>| names_order(a, b)),
{
    lemma_name_order_laws();
    lemma_lex_order_laws(name_order_fn());
    assert((|a: Seq<Seq<char>>, b: Seq<Seq<char>>| names_order(a, b)) =~= (|
        a: Seq<Seq<char>>,
        b: Seq<Seq<char>>,
    | lex_order(a, b, name_order_fn())));
}

/// Compare two module spelling paths.
pub fn compare_name_paths(a: &[Name], b: &[Name]) -> (result: i8)
    ensures
        result == names_order(spellings(a@), spellings(b@)),
{
    let ghost f = name_order_fn();
    let ghost sa = spellings(a@);
    let ghost sb = spellings(b@);
    proof {
        assert(sa.skip(0) =~= sa);
        assert(sb.skip(0) =~= sb);
    }
    let mut i: usize = 0;
    while i < a.len() && i < b.len()
        invariant
            f == name_order_fn(),
            sa == spellings(a@),
            sb == spellings(b@),
            i <= a@.len(),
            i <= b@.len(),
            names_order(sa, sb) == lex_order(sa.skip(i as int), sb.skip(i as int), f),
        decreases a@.len() - i,
    {
        let c = a[i].compare(&b[i]);
        assert(sa.skip(i as int)[0] == a@[i as int]@);
        assert(sb.skip(i as int)[0] == b@[i as int]@);
        assert(f(a@[i as int]@, b@[i as int]@) == name_order(a@[i as int]@, b@[i as int]@));
        if c != 0 {
            return c;
        }
        assert(sa.skip(i as int).drop_first() =~= sa.skip(i + 1));
        assert(sb.skip(i as int).drop_first() =~= sb.skip(i + 1));
        i = i + 1;
    }
    assert(sa.skip(i as int).len() == 0 || sb.skip(i as int).len() == 0);
    if i < b.len() {
        -1
    } else if i < a.len() {
        1
    } else {
        0
    }
}

/// The order of textual name paths: root, then module spellings, then final spelling.
pub open spec fn path_order<Root: Ord>(a: PathV<Root>, b: PathV<Root>) -> int {
    then_order(
        root_order(a.root, b.root),
        then_order(names_order(a.modules, b.modules), name_order(a.spelling, b.spelling)),
    )
}

pub proof fn lemma_path_order_laws<Root: Ord>()
    requires
        root_laws::<Root>(),
    ensures
        order_laws(|a: PathV<Root>, b: PathV<Root>| path_order(a, b)),
{
    lemma_root_order_laws::<Root>();
    lemma_names_order_laws();
    lemma_name_order_laws();
    let r = root_order_fn::<Root>();
    let m = |a: Seq<Seq<char>>, b: Seq<Seq<char>>| names_order(a, b);
    let n = name_order_fn();
    let pr = |x: PathV<Root>| x.root;
    let pm = |x: PathV<Root>| x.modules;
    let ps = |x: PathV<Root>| x.spelling;
    lemma_project_sign_laws(r, pr);
    lemma_project_sign_laws(m, pm);
    lemma_project_sign_laws(n, ps);
    let fr = |x: PathV<Root>, y: PathV<Root>| r(pr(x), pr(y));
    let fm = |x: PathV<Root>, y: PathV<Root>| m(pm(x), pm(y));
    let fs = |x: PathV<Root>, y: PathV<Root>| n(ps(x), ps(y));
    lemma_then_sign_laws(fm, fs);
    let inner = |x: PathV<Root>, y: PathV<Root>| then_order(fm(x, y), fs(x, y));
    lemma_then_sign_laws(fr, inner);
    let whole = |x: PathV<Root>, y: PathV<Root>| then_order(fr(x, y), inner(x, y));
    let target = |a: PathV<Root>, b: PathV<Root>| path_order(a, b);
    assert(whole =~= target);
    assert forall|a: PathV<Root>, b: PathV<Root>| #![trigger target(a, b)] target(a, b) == 0 <==> a
        == b by {
        assert(r(a.root, b.root) == 0 <==> a.root == b.root);
        assert(m(a.modules, b.modules) == 0 <==> a.modules == b.modules);
        assert(n(a.spelling, b.spelling) == 0 <==> a.spelling == b.spelling);
    }
}

impl<Root: Ord + Copy> CanonicalOrder for NameReference<Root> {
    open spec fn order_holds() -> bool {
        root_laws::<Root>()
    }

    open spec fn order(a: PathV<Root>, b: PathV<Root>) -> int {
        path_order(a, b)
    }

    proof fn lemma_sign_laws() {
        lemma_path_order_laws::<Root>();
        assert((|a: PathV<Root>, b: PathV<Root>| Self::order(a, b)) =~= (|
            a: PathV<Root>,
            b: PathV<Root>,
        | path_order(a, b)));
    }

    fn compare(&self, other: &Self) -> (result: i8) {
        let r = compare_roots(&self.0.table.root, &other.0.table.root);
        if r != 0 {
            return r;
        }
        let m = compare_name_paths(self.0.table.modules.as_slice(), other.0.table.modules.as_slice());
        if m != 0 {
            return m;
        }
        self.0.spelling.compare(&other.0.spelling)
    }
}

/// The view of one canonical declaration record.
pub struct DeclKeyV<Root> {
    pub root: Root,
    pub table_path: Seq<Seq<char>>,
    pub spelling: Seq<char>,
    pub child_mutability: Option<TableMutability>,
}

/// The order of canonical declaration records.
pub open spec fn decl_key_order<Root: Ord>(a: DeclKeyV<Root>, b: DeclKeyV<Root>) -> int {
    then_order(
        root_order(a.root, b.root),
        then_order(
            names_order(a.table_path, b.table_path),
            then_order(
                name_order(a.spelling, b.spelling),
                child_order(a.child_mutability, b.child_mutability),
            ),
        ),
    )
}

pub proof fn lemma_decl_key_order_laws<Root: Ord>()
    requires
        root_laws::<Root>(),
    ensures
        order_laws(|a: DeclKeyV<Root>, b: DeclKeyV<Root>| decl_key_order(a, b)),
{
    lemma_root_order_laws::<Root>();
    lemma_names_order_laws();
    lemma_name_order_laws();
    lemma_small_orders();
    let r = root_order_fn::<Root>();
    let m = |a: Seq<Seq<char>>, b: Seq<Seq<char>>| names_order(a, b);
    let n = name_order_fn();
    let c = |a: Option<TableMutability>, b: Option<TableMutability>| child_order(a, b);
    let pr = |x: DeclKeyV<Root>| x.root;
    let pm = |x: DeclKeyV<Root>| x.table_path;
    let ps = |x: DeclKeyV<Root>| x.spelling;
    let pc = |x: DeclKeyV<Root>| x.child_mutability;
    lemma_project_sign_laws(r, pr);
    lemma_project_sign_laws(m, pm);
    lemma_project_sign_laws(n, ps);
    lemma_project_sign_laws(c, pc);
    let fr = |x: DeclKeyV<Root>, y: DeclKeyV<Root>| r(pr(x), pr(y));
    let fm = |x: DeclKeyV<Root>, y: DeclKeyV<Root>| m(pm(x), pm(y));
    let fs = |x: DeclKeyV<Root>, y: DeclKeyV<Root>| n(ps(x), ps(y));
    let fc = |x: DeclKeyV<Root>, y: DeclKeyV<Root>| c(pc(x), pc(y));
    lemma_then_sign_laws(fs, fc);
    let i1 = |x: DeclKeyV<Root>, y: DeclKeyV<Root>| then_order(fs(x, y), fc(x, y));
    lemma_then_sign_laws(fm, i1);
    let i2 = |x: DeclKeyV<Root>, y: DeclKeyV<Root>| then_order(fm(x, y), i1(x, y));
    lemma_then_sign_laws(fr, i2);
    let whole = |x: DeclKeyV<Root>, y: DeclKeyV<Root>| then_order(fr(x, y), i2(x, y));
    let target = |a: DeclKeyV<Root>, b: DeclKeyV<Root>| decl_key_order(a, b);
    assert(whole =~= target);
    assert forall|a: DeclKeyV<Root>, b: DeclKeyV<Root>| #![trigger target(a, b)] target(a, b)
        == 0 <==> a == b by {
        assert(r(a.root, b.root) == 0 <==> a.root == b.root);
        assert(m(a.table_path, b.table_path) == 0 <==> a.table_path == b.table_path);
        assert(n(a.spelling, b.spelling) == 0 <==> a.spelling == b.spelling);
        assert(c(a.child_mutability, b.child_mutability) == 0 <==> a.child_mutability
            == b.child_mutability);
    }
}

/// One declaration of a seal flattened with its root and table path.
#[derive(Clone, Debug, PartialEq, Eq, PartialOrd, Ord)]
pub struct CanonicalDeclaration<Root> {
    pub(crate) root: Root,
    pub(crate) table_path: Vec<Name>,
    pub(crate) spelling: Name,
    pub(crate) child_mutability: Option<TableMutability>,
}

impl<Root> View for CanonicalDeclaration<Root> {
    type V = DeclKeyV<Root>;

    closed spec fn view(&self) -> DeclKeyV<Root> {
        DeclKeyV {
            root: self.root,
            table_path: spellings(self.table_path@),
            spelling: self.spelling@,
            child_mutability: self.child_mutability,
        }
    }
}

pub(crate) broadcast proof fn reveal_decl_key_view<Root>(d: CanonicalDeclaration<Root>)
    ensures
        #[trigger] d@ == (DeclKeyV {
            root: d.root,
            table_path: spellings(d.table_path@),
            spelling: d.spelling@,
            child_mutability: d.child_mutability,
        }),
{
}

fn compare_children(a: Option<TableMutability>, b: Option<TableMutability>) -> (result: i8)
    ensures
        result == child_order(a, b),
{
    let ra: u8 = match a {
        None => 0,
        Some(TableMutability::Mutable) => 1,
        Some(TableMutability::Immutable) => 2,
    };
    let rb: u8 = match b {
        None => 0,
        Some(TableMutability::Mutable) => 1,
        Some(TableMutability::Immutable) => 2,
    };
    if ra < rb {
        -1
    } else if ra > rb {
        1
    } else {
        0
    }
}

impl<Root: Ord + Copy> CanonicalOrder for CanonicalDeclaration<Root> {
    open spec fn order_holds() -> bool {
        root_laws::<Root>()
    }

    open spec fn order(a: DeclKeyV<Root>, b: DeclKeyV<Root>) -> int {
        decl_key_order(a, b)
    }

    proof fn lemma_sign_laws() {
        lemma_decl_key_order_laws::<Root>();
        assert((|a: DeclKeyV<Root>, b: DeclKeyV<Root>| Self::order(a, b)) =~= (|
            a: DeclKeyV<Root>,
            b: DeclKeyV<Root>,
        | decl_key_order(a, b)));
    }

    fn compare(&self, other: &Self) -> (result: i8) {
        let r = compare_roots(&self.root, &other.root);
        if r != 0 {
            return r;
        }
        let m = compare_name_paths(self.table_path.as_slice(), other.table_path.as_slice());
        if m != 0 {
            return m;
        }
        let s = self.spelling.compare(&other.spelling);
        if s != 0 {
            return s;
        }
        compare_children(self.child_mutability, other.child_mutability)
    }
}

/// The order of root graphs in canonical form: root, then mutability.
pub open spec fn root_key_order<Root: Ord>(
    a: (Root, TableMutability),
    b: (Root, TableMutability),
) -> int {
    then_order(root_order(a.0, b.0), mutability_order(a.1, b.1))
}

pub proof fn lemma_root_key_order_laws<Root: Ord>()
    requires
        root_laws::<Root>(),
    ensures
        order_laws(|a: (Root, TableMutability), b: (Root, TableMutability)| root_key_order(a, b)),
{
    lemma_root_order_laws::<Root>();
    lemma_small_orders();
    let r = root_order_fn::<Root>();
    let mu = |a: TableMutability, b: TableMutability| mutability_order(a, b);
    let pr = |x: (Root, TableMutability)| x.0;
    let pm = |x: (Root, TableMutability)| x.1;
    lemma_project_sign_laws(r, pr);
    lemma_project_sign_laws(mu, pm);
    let fr = |x: (Root, TableMutability), y: (Root, TableMutability)| r(pr(x), pr(y));
    let fm = |x: (Root, TableMutability), y: (Root, TableMutability)| mu(pm(x), pm(y));
    lemma_then_sign_laws(fr, fm);
    let whole = |x: (Root, TableMutability), y: (Root, TableMutability)| then_order(
        fr(x, y),
        fm(x, y),
    );
    let target = |a: (Root, TableMutability), b: (Root, TableMutability)| root_key_order(a, b);
    assert(whole =~= target);
    assert forall|a: (Root, TableMutability), b: (Root, TableMutability)| #![trigger target(a, b)]
        target(a, b) == 0 <==> a == b by {
        assert(r(a.0, b.0) == 0 <==> a.0 == b.0);
        assert(mu(a.1, b.1) == 0 <==> a.1 == b.1);
    }
}

/// One root graph in canonical form.
#[derive(Clone, Debug, PartialEq, Eq, PartialOrd, Ord)]
pub struct CanonicalRoot<Root> {
    pub(crate) root: Root,
    pub(crate) mutability: TableMutability,
}

impl<Root> View for CanonicalRoot<Root> {
    type V = (Root, TableMutability);

    closed spec fn view(&self) -> (Root, TableMutability) {
        (self.root, self.mutability)
    }
}

pub(crate) broadcast proof fn reveal_root_key_view<Root>(r: CanonicalRoot<Root>)
    ensures
        #[trigger] r@ == (r.root, r.mutability),
{
}

impl<Root: Ord + Copy> CanonicalOrder for CanonicalRoot<Root> {
    open spec fn order_holds() -> bool {
        root_laws::<Root>()
    }

    open spec fn order(a: (Root, TableMutability), b: (Root, TableMutability)) -> int {
        root_key_order(a, b)
    }

    proof fn lemma_sign_laws() {
        lemma_root_key_order_laws::<Root>();
        assert((|a: (Root, TableMutability), b: (Root, TableMutability)| Self::order(a, b)) =~= (|
            a: (Root, TableMutability),
            b: (Root, TableMutability),
        | root_key_order(a, b)));
    }

    fn compare(&self, other: &Self) -> (result: i8) {
        let r = compare_roots(&self.root, &other.root);
        if r != 0 {
            return r;
        }
        let ra: u8 = match self.mutability {
            TableMutability::Mutable => 0,
            TableMutability::Immutable => 1,
        };
        let rb: u8 = match other.mutability {
            TableMutability::Mutable => 0,
            TableMutability::Immutable => 1,
        };
        if ra < rb {
            -1
        } else if ra > rb {
            1
        } else {
            0
        }
    }
}

/// The flattened declaration records of one declaration list.
pub open spec fn flatten_decls<Root>(root: Root, path: Seq<Seq<char>>, ds: Seq<DeclV>) -> Seq<
    DeclKeyV<Root>,
>
    decreases ds,
{
    if ds.len() == 0 {
        Seq::empty()
    } else {
        let d = ds[0];
        let record = match d {
            DeclV::Member(name) => DeclKeyV {
                root,
                table_path: path,
                spelling: name,
                child_mutability: None,
            },
            DeclV::Module(name, mutability, _) => DeclKeyV {
                root,
                table_path: path,
                spelling: name,
                child_mutability: Some(mutability),
            },
        };
        let nested = match d {
            DeclV::Member(_) => Seq::empty(),
            DeclV::Module(name, _, children) => flatten_decls(root, path.push(name), children),
        };
        seq![record] + nested + flatten_decls(root, path, ds.drop_first())
    }
}

/// The flattened declaration records of every root graph, in submission order.
pub open spec fn flatten_roots<Root>(roots: Seq<RootDeclV<Root>>) -> Seq<DeclKeyV<Root>>
    decreases roots.len(),
{
    if roots.len() == 0 {
        Seq::empty()
    } else {
        flatten_roots(roots.drop_last()) + flatten_decls(
            roots.last().root,
            Seq::empty(),
            roots.last().declarations,
        )
    }
}

/// The view of a request digest: the canonically sorted root graphs,
/// flattened declarations and references of a seal, excluding its key.
pub struct RequestDigestV<Root> {
    pub roots: Seq<(Root, TableMutability)>,
    pub declarations: Seq<DeclKeyV<Root>>,
    pub references: Seq<PathV<Root>>,
}

/// The canonical form of a seal request.
pub open spec fn canonical_request<Root: Ord>(request: SealRequestV<Root>) -> RequestDigestV<Root> {
    RequestDigestV {
        roots: request.roots.map_values(|r: RootDeclV<Root>| (r.root, r.mutability)).sort_by(
            leq_of(|a: (Root, TableMutability), b: (Root, TableMutability)| root_key_order(a, b)),
        ),
        declarations: flatten_roots(request.roots).sort_by(
            leq_of(|a: DeclKeyV<Root>, b: DeclKeyV<Root>| decl_key_order(a, b)),
        ),
        references: request.references.sort_by(
            leq_of(|a: PathV<Root>, b: PathV<Root>| path_order(a, b)),
        ),
    }
}

/// Digest of a seal's canonical nested graph, excluding its idempotency key.
#[derive(Clone, Debug, PartialEq, Eq)]
pub struct RequestDigest<Root> {
    pub(crate) roots: Vec<CanonicalRoot<Root>>,
    pub(crate) declarations: Vec<CanonicalDeclaration<Root>>,
    pub(crate) references: Vec<NameReference<Root>>,
}

impl<Root> View for RequestDigest<Root> {
    type V = RequestDigestV<Root>;

    closed spec fn view(&self) -> RequestDigestV<Root> {
        RequestDigestV {
            roots: views(self.roots@),
            declarations: views(self.declarations@),
            references: views(self.references@),
        }
    }
}

pub(crate) broadcast proof fn reveal_request_digest_view<Root>(d: RequestDigest<Root>)
    ensures
        #[trigger] d@ == (RequestDigestV {
            roots: views(d.roots@),
            declarations: views(d.declarations@),
            references: views(d.references@),
        }),
{
}

impl<Root: Ord + Copy> RequestDigest<Root> {
    /// Whether two digests are equal.
    pub fn same(&self, other: &Self) -> (same: bool)
        requires
            root_laws::<Root>(),
        ensures
            same == (self@ == other@),
    {
        proof {
            lemma_root_key_order_laws::<Root>();
            lemma_decl_key_order_laws::<Root>();
            lemma_path_order_laws::<Root>();
            assert(order_of::<CanonicalRoot<Root>>() =~= (|
                a: (Root, TableMutability),
                b: (Root, TableMutability),
            | root_key_order(a, b)));
            assert(order_of::<CanonicalDeclaration<Root>>() =~= (|
                a: DeclKeyV<Root>,
                b: DeclKeyV<Root>,
            | decl_key_order(a, b)));
            assert(order_of::<NameReference<Root>>() =~= (|a: PathV<Root>, b: PathV<Root>|
                path_order(a, b)));
            reveal_request_digest_view(*self);
            reveal_request_digest_view(*other);
        }
        same_sequence(self.roots.as_slice(), other.roots.as_slice()) && same_sequence(
            self.declarations.as_slice(),
            other.declarations.as_slice(),
        ) && same_sequence(self.references.as_slice(), other.references.as_slice())
    }
}

impl<Root> RequestDigest<Root> {
    /// Record a request digest, as recorded in an archive.
    pub fn new(
        roots: Vec<CanonicalRoot<Root>>,
        declarations: Vec<CanonicalDeclaration<Root>>,
        references: Vec<NameReference<Root>>,
    ) -> (digest: Self)
        ensures
            digest@ == (RequestDigestV {
                roots: views(roots@),
                declarations: views(declarations@),
                references: views(references@),
            }),
    {
        RequestDigest { roots, declarations, references }
    }

    /// The canonically sorted root graphs.
    pub fn roots(&self) -> (roots: &[CanonicalRoot<Root>])
        ensures
            views(roots@) == self@.roots,
    {
        self.roots.as_slice()
    }

    /// The canonically sorted flattened declarations.
    pub fn declarations(&self) -> (declarations: &[CanonicalDeclaration<Root>])
        ensures
            views(declarations@) == self@.declarations,
    {
        self.declarations.as_slice()
    }

    /// The canonically sorted references.
    pub fn references(&self) -> (references: &[NameReference<Root>])
        ensures
            views(references@) == self@.references,
    {
        self.references.as_slice()
    }
}

impl<Root> CanonicalRoot<Root> {
    /// Record one root graph by root and mutability.
    pub fn new(root: Root, mutability: TableMutability) -> (record: Self)
        ensures
            record@ == (root, mutability),
    {
        CanonicalRoot { root, mutability }
    }

    /// The root selector.
    pub fn root(&self) -> (root: &Root)
        ensures
            *root == self@.0,
    {
        &self.root
    }

    /// The root table's mutability.
    pub fn mutability(&self) -> (mutability: TableMutability)
        ensures
            mutability == self@.1,
    {
        self.mutability
    }
}

impl<Root> CanonicalDeclaration<Root> {
    /// Record one flattened declaration.
    pub fn new(
        root: Root,
        table_path: Vec<Name>,
        spelling: Name,
        child_mutability: Option<TableMutability>,
    ) -> (record: Self)
        ensures
            record@ == (DeclKeyV {
                root,
                table_path: spellings(table_path@),
                spelling: spelling@,
                child_mutability,
            }),
    {
        CanonicalDeclaration { root, table_path, spelling, child_mutability }
    }

    /// The root selector.
    pub fn root(&self) -> (root: &Root)
        ensures
            *root == self@.root,
    {
        &self.root
    }

    /// The module spellings of the owning table.
    pub fn table_path(&self) -> (path: &[Name])
        ensures
            spellings(path@) == self@.table_path,
    {
        self.table_path.as_slice()
    }

    /// The declared spelling.
    pub fn spelling(&self) -> (spelling: &Name)
        ensures
            spelling@ == self@.spelling,
    {
        &self.spelling
    }

    /// The mutability of the owned child table, for a module.
    pub fn child_mutability(&self) -> (mutability: Option<TableMutability>)
        ensures
            mutability == self@.child_mutability,
    {
        self.child_mutability
    }
}

pub proof fn lemma_flatten_concat<Root>(
    root: Root,
    path: Seq<Seq<char>>,
    a: Seq<DeclV>,
    b: Seq<DeclV>,
)
    ensures
        flatten_decls(root, path, a + b) == flatten_decls(root, path, a) + flatten_decls(
            root,
            path,
            b,
        ),
    decreases a.len(),
{
    if a.len() == 0 {
        assert(a + b =~= b);
    } else {
        assert((a + b).drop_first() =~= a.drop_first() + b);
        assert((a + b)[0] == a[0]);
        lemma_flatten_concat(root, path, a.drop_first(), b);
    }
}

/// Flatten a declaration list into canonical records.
fn flatten_declarations<Root: Copy>(
    root: Root,
    table_path: &Vec<Name>,
    declarations: &[Declaration],
    flattened: &mut Vec<CanonicalDeclaration<Root>>,
)
    ensures
        views(final(flattened)@) == views(old(flattened)@) + flatten_decls(
            root,
            spellings(table_path@),
            decls_view(declarations@),
        ),
    decreases declarations@,
{
    broadcast use reveal_decl_key_view;

    proof {
        reveal_decl_views();
    }
    let ghost path = spellings(table_path@);
    let ghost dsv = decls_view(declarations@);
    let ghost start = views(flattened@);
    let mut i: usize = 0;
    proof {
        assert(dsv.subrange(0, 0) =~= Seq::<DeclV>::empty());
        assert(start + flatten_decls(root, path, dsv.subrange(0, 0)) =~= start);
    }
    while i < declarations.len()
        invariant
            i <= declarations@.len(),
            path == spellings(table_path@),
            dsv == decls_view(declarations@),
            dsv.len() == declarations@.len(),
            views(flattened@) == start + flatten_decls(root, path, dsv.subrange(0, i as int)),
        decreases declarations@.len() - i,
    {
        proof {
            reveal_decl_views();
        }
        let declaration = &declarations[i];
        let ghost before = views(flattened@);
        let child_mutability = match declaration {
            Declaration::Member(_) => None,
            Declaration::Module(module) => Some(module.mutability),
        };
        let record_value = CanonicalDeclaration {
            root,
            table_path: copy_names(table_path.as_slice()),
            spelling: declaration.name().duplicate(),
            child_mutability,
        };
        flattened.push(record_value);
        let ghost d = dsv[i as int];
        let ghost pushed = views(flattened@);
        proof {
            assert(d == decl_view(declarations@[i as int]));
        }
        if let Declaration::Module(module) = declaration {
            let mut child_path = copy_names(table_path.as_slice());
            child_path.push(module.name.duplicate());
            proof {
                assert(spellings(child_path@) =~= path.push(module.name@));
                assert(decreases_to!(declarations@ => declarations@[i as int]));
            }
            flatten_declarations(root, &child_path, module.declarations.as_slice(), flattened);
        }
        proof {
            let record = match d {
                DeclV::Member(name) => DeclKeyV {
                    root,
                    table_path: path,
                    spelling: name,
                    child_mutability: None,
                },
                DeclV::Module(name, mutability, _) => DeclKeyV {
                    root,
                    table_path: path,
                    spelling: name,
                    child_mutability: Some(mutability),
                },
            };
            let nested = match d {
                DeclV::Member(_) => Seq::<DeclKeyV<Root>>::empty(),
                DeclV::Module(name, _, children) => flatten_decls(root, path.push(name), children),
            };
            assert(seq![d].drop_first() =~= Seq::<DeclV>::empty());
            assert(flatten_decls(root, path, seq![d].drop_first()) =~= Seq::<DeclKeyV<Root>>::empty());
            assert(seq![d][0] == d);
            assert(flatten_decls(root, path, seq![d]) =~= seq![record] + nested + Seq::<
                DeclKeyV<Root>,
            >::empty());
            assert(record_value@ == record);
            assert(pushed =~= before.push(record));
            assert(views(flattened@) =~= before + seq![record] + nested);
            assert(dsv.subrange(0, i + 1) =~= dsv.subrange(0, i as int) + seq![d]);
            lemma_flatten_concat(root, path, dsv.subrange(0, i as int), seq![d]);
        }
        i = i + 1;
    }
    proof {
        assert(dsv.subrange(0, dsv.len() as int) =~= dsv);
    }
}

/// Declarations ordered by the bytes of their spellings.
pub open spec fn decl_name_order(a: DeclV, b: DeclV) -> int {
    name_order(a.name(), b.name())
}

/// The declaration order as a spec closure.
pub open spec fn decl_name_order_fn() -> spec_fn(DeclV, DeclV) -> int {
    |a: DeclV, b: DeclV| decl_name_order(a, b)
}

/// A declaration tree with every declaration list in canonical spelling order.
pub open spec fn canon_decl(d: DeclV) -> DeclV
    decreases d, 2int,
{
    match d {
        DeclV::Member(name) => DeclV::Member(name),
        DeclV::Module(name, mutability, children) => DeclV::Module(
            name,
            mutability,
            canon_decls(children),
        ),
    }
}

/// A declaration list in canonical spelling order, each tree canonical.
pub open spec fn canon_decls(ds: Seq<DeclV>) -> Seq<DeclV>
    decreases ds, 1int,
{
    crate::order::insertion_sort(canon_each(ds), decl_name_order_fn())
}

/// Every tree of a list made canonical, in the list's order.
pub open spec fn canon_each(ds: Seq<DeclV>) -> Seq<DeclV>
    decreases ds, 0int,
{
    if ds.len() == 0 {
        Seq::empty()
    } else {
        canon_each(ds.drop_last()).push(canon_decl(ds.last()))
    }
}

/// Each tree of a list made canonical, position by position.
pub proof fn lemma_canon_each_at(ds: Seq<DeclV>)
    ensures
        canon_each(ds).len() == ds.len(),
        forall|k: int| 0 <= k < ds.len() ==> #[trigger] canon_each(ds)[k] == canon_decl(ds[k]),
    decreases ds.len(),
{
    if ds.len() > 0 {
        lemma_canon_each_at(ds.drop_last());
        assert forall|k: int| 0 <= k < ds.len() implies #[trigger] canon_each(ds)[k] == canon_decl(
            ds[k],
        ) by {
            if k < ds.len() - 1 {
                assert(canon_each(ds)[k] == canon_each(ds.drop_last())[k]);
                assert(ds.drop_last()[k] == ds[k]);
            }
        }
    }
}

impl CanonicalOrder for Declaration {
    open spec fn order_holds() -> bool {
        true
    }

    open spec fn order(a: DeclV, b: DeclV) -> int {
        decl_name_order(a, b)
    }

    proof fn lemma_sign_laws() {
        lemma_name_order_laws();
        lemma_project_sign_laws(name_order_fn(), |d: DeclV| d.name());
        assert((|a: DeclV, b: DeclV| Self::order(a, b)) =~= (|a: DeclV, b: DeclV| name_order_fn()(
            (|d: DeclV| d.name())(a),
            (|d: DeclV| d.name())(b),
        )));
    }

    fn compare(&self, other: &Self) -> (result: i8) {
        self.name().compare(other.name())
    }
}

/// Order each declaration list of a tree canonically by spelling bytes.
pub(crate) fn canonical_declarations(declarations: &[Declaration]) -> (canonical: Vec<Declaration>)
    ensures
        decls_view(canonical@) == canon_decls(decls_view(declarations@)),
    decreases declarations@,
{
    proof {
        reveal_decl_views();
    }
    let ghost dsv = decls_view(declarations@);
    let mut canonical: Vec<Declaration> = Vec::with_capacity(declarations.len());
    let mut i: usize = 0;
    while i < declarations.len()
        invariant
            dsv == decls_view(declarations@),
            dsv.len() == declarations@.len(),
            i <= declarations@.len(),
            views(canonical@) == canon_each(dsv.subrange(0, i as int)),
        decreases declarations@.len() - i,
    {
        proof {
            reveal_decl_views();
        }
        let ghost before = views(canonical@);
        let next = match &declarations[i] {
            Declaration::Member(name) => Declaration::Member(name.duplicate()),
            Declaration::Module(module) => {
                proof {
                    assert(decreases_to!(declarations@ => declarations@[i as int]));
                }
                let children = canonical_declarations(module.declarations.as_slice());
                Declaration::Module(
                    ModuleDeclaration {
                        name: module.name.duplicate(),
                        mutability: module.mutability,
                        declarations: children,
                    },
                )
            },
        };
        canonical.push(next);
        proof {
            assert(dsv[i as int] == decl_view(declarations@[i as int]));
            assert(next@ == canon_decl(dsv[i as int]));
            assert(views(canonical@) =~= before.push(next@));
            let prefix = dsv.subrange(0, i + 1);
            assert(prefix.drop_last() =~= dsv.subrange(0, i as int));
            assert(prefix.last() == dsv[i as int]);
        }
        i = i + 1;
    }
    proof {
        assert(dsv.subrange(0, dsv.len() as int) =~= dsv);
    }
    let sorted = sort_canonical(canonical);
    proof {
        assert(order_of::<Declaration>() =~= decl_name_order_fn());
        assert(decls_view(sorted@) =~= views(sorted@));
    }
    sorted
}

/// Compute the canonical form of a seal request.
pub(crate) fn canonical_seal<Root: Ord + Copy>(request: &SealRequest<Root>) -> (digest:
    RequestDigest<Root>)
    requires
        root_laws::<Root>(),
    ensures
        digest@ == canonical_request(request@),
{
    broadcast use reveal_root_key_view;

    let ghost rv = request@;
    // Root graphs.
    let mut roots: Vec<CanonicalRoot<Root>> = Vec::new();
    let mut i: usize = 0;
    while i < request.roots.len()
        invariant
            rv == request@,
            rv.roots == root_decl_views(request.roots@),
            i <= request.roots@.len(),
            views(roots@) == rv.roots.subrange(0, i as int).map_values(
                |r: RootDeclV<Root>| (r.root, r.mutability),
            ),
        decreases request.roots@.len() - i,
    {
        let root = &request.roots[i];
        let ghost before = views(roots@);
        let entry = CanonicalRoot { root: root.root, mutability: root.mutability };
        assert(entry@ == (root.root, root.mutability));
        roots.push(entry);
        proof {
            assert(views(roots@) =~= before.push(entry@));
            assert(rv.roots[i as int].root == root.root);
            assert(rv.roots[i as int].mutability == root.mutability);
            assert(rv.roots[i as int] == request.roots@[i as int]@);
            assert(rv.roots.subrange(0, i + 1) =~= rv.roots.subrange(0, i as int).push(
                rv.roots[i as int],
            ));
            assert(views(roots@) =~= rv.roots.subrange(0, i + 1).map_values(
                |r: RootDeclV<Root>| (r.root, r.mutability),
            ));
        }
        i = i + 1;
    }
    proof {
        assert(rv.roots.subrange(0, rv.roots.len() as int) =~= rv.roots);
    }
    let ghost unsorted_roots = views(roots@);
    let roots = sort_canonical(roots);
    proof {
        lemma_root_key_order_laws::<Root>();
        let f = |a: (Root, TableMutability), b: (Root, TableMutability)| root_key_order(a, b);
        assert(order_of::<CanonicalRoot<Root>>() =~= f);
        lemma_sorted_is_sort_by(views(roots@), unsorted_roots, f);
    }
    // Flattened declarations.
    let mut declarations: Vec<CanonicalDeclaration<Root>> = Vec::new();
    let empty_path: Vec<Name> = Vec::new();
    let mut i: usize = 0;
    while i < request.roots.len()
        invariant
            rv == request@,
            rv.roots == root_decl_views(request.roots@),
            spellings(empty_path@) == Seq::<Seq<char>>::empty(),
            i <= request.roots@.len(),
            views(declarations@) == flatten_roots(rv.roots.subrange(0, i as int)),
        decreases request.roots@.len() - i,
    {
        let root = &request.roots[i];
        flatten_declarations(root.root, &empty_path, root.declarations.as_slice(), &mut declarations);
        proof {
            let next = rv.roots.subrange(0, i + 1);
            assert(next.drop_last() =~= rv.roots.subrange(0, i as int));
            assert(next.last() == rv.roots[i as int]);
        }
        i = i + 1;
    }
    proof {
        assert(spellings(empty_path@) =~= Seq::<Seq<char>>::empty());
        assert(rv.roots.subrange(0, rv.roots.len() as int) =~= rv.roots);
    }
    let ghost unsorted_declarations = views(declarations@);
    let declarations = sort_canonical(declarations);
    proof {
        lemma_decl_key_order_laws::<Root>();
        let f = |a: DeclKeyV<Root>, b: DeclKeyV<Root>| decl_key_order(a, b);
        assert(order_of::<CanonicalDeclaration<Root>>() =~= f);
        lemma_sorted_is_sort_by(views(declarations@), unsorted_declarations, f);
    }
    // References.
    let mut references: Vec<NameReference<Root>> = Vec::new();
    let mut i: usize = 0;
    while i < request.references.len()
        invariant
            rv == request@,
            rv.references == reference_views(request.references@),
            i <= request.references@.len(),
            views(references@) == rv.references.subrange(0, i as int),
        decreases request.references@.len() - i,
    {
        let ghost before = views(references@);
        let copy = request.references[i].duplicate();
        references.push(copy);
        proof {
            assert(views(references@) =~= before.push(copy@));
            assert(rv.references[i as int] == request.references@[i as int]@);
            assert(views(references@) =~= rv.references.subrange(0, i + 1));
        }
        i = i + 1;
    }
    proof {
        assert(rv.references.subrange(0, rv.references.len() as int) =~= rv.references);
    }
    let ghost unsorted_references = views(references@);
    let references = sort_canonical(references);
    proof {
        lemma_path_order_laws::<Root>();
        let f = |a: PathV<Root>, b: PathV<Root>| path_order(a, b);
        assert(order_of::<NameReference<Root>>() =~= f);
        lemma_sorted_is_sort_by(views(references@), unsorted_references, f);
    }
    let digest = RequestDigest { roots, declarations, references };
    proof {
        reveal_request_digest_view(digest);
    }
    digest
}

} // verus!
