//! The constructor rewriter: it threads table pointers through the
//! constructors of a class and of its bases.

use vstd::prelude::*;
use vstd::string::*;
use crate::text::same_option;
use crate::attrs::text_is;
use crate::bases::{
    all_added_of, collect_added_bases, collect_threaded_bases, path_of, resolve,
    threaded_bases_of, valid_ref, BaseRef, SecondaryBase,
};
use crate::decl::{constructors_of, BasePath, CppDef, GenError, ItemClass, Param};
use crate::naming::{
    base_name_of, ctor_call_of, make_base_name, make_ctor_call, make_vtable_static,
    vtable_static_ident_of,
};

verus! {

/// How a field of an instantiation is initialized.
#[derive(Clone, Copy, Debug, PartialEq, Eq, Structural)]
pub enum Init {
    /// By a call whose callee is a path.
    PathCall,
    /// By a call whose callee is something else.
    OtherCall,
    /// By anything that is no call.
    Other,
}

/// One field of an instantiation. The name is absent for a field that is
/// given by position.
#[derive(Clone, Debug, PartialEq, Eq)]
pub struct FieldInit {
    pub name: Option<String>,
    pub init: Init,
}

/// A literal instantiation of a type: the last segment of its path, and its
/// fields.
#[derive(Clone, Debug, PartialEq, Eq)]
pub struct Instantiation {
    pub target: String,
    pub fields: Vec<FieldInit>,
}

/// A statement of a constructor's body: a literal instantiation, as the
/// initializer of a local variable or as an expression of its own, or
/// anything else.
#[derive(Clone, Debug, PartialEq, Eq)]
pub enum Statement {
    Instantiation(Instantiation),
    Other,
}

/// A constructor as the user wrote it.
#[derive(Clone, Debug, PartialEq, Eq)]
pub struct Constructor {
    pub name: String,
    pub params: Vec<Param>,
    pub body: Vec<Statement>,
}

/// An argument that the rewriter appends to the call of a base constructor.
#[derive(Clone, Copy, Debug, PartialEq, Eq, Structural)]
pub enum CallArg {
    /// A reference to the base table embedded in the constructor's own table.
    EmbeddedTable,
    /// A reference to the static table that the class holds for this base.
    Static { base: BaseRef },
    /// The constructor's table parameter for the threaded base at `position`.
    Param { position: usize },
}

/// One change to a constructor. The changes of a plan apply in order.
#[derive(Clone, Copy, Debug, PartialEq, Eq, Structural)]
pub enum Edit {
    /// The callee of the call that initializes `field` in the statement
    /// `stmt` gets the name of its variant with table pointers.
    RenameCallee { stmt: usize, field: usize },
    /// That call gets one more argument at its end.
    PushArg { stmt: usize, field: usize, arg: CallArg },
    /// The instantiation in `stmt` gets the table pointer as its first field.
    InsertTablePointer { stmt: usize },
}

/// What the rewriter makes of one constructor.
#[derive(Clone, Debug, PartialEq, Eq)]
pub struct CtorPlan {
    /// The new name of the rewritten constructor.
    pub hidden_name: String,
    /// The bases for which it takes a table pointer after its own, in
    /// parameter order.
    pub threaded: Vec<BaseRef>,
    /// The names of those parameters.
    pub threaded_params: Vec<String>,
    /// The changes to its body, in order.
    pub edits: Vec<Edit>,
    /// The static tables that the public stub, which keeps the constructor's name, supplies:
    /// the class's own, then one per threaded base.
    pub stub_statics: Vec<String>,
}

/// Whether a statement instantiates the class: by `Self` or by its name.
pub open spec fn locates(ident: Seq<char>, stmt: Statement) -> bool {
    match stmt {
        Statement::Instantiation(inst) => inst.target@ == "Self"@ || inst.target@ == ident,
        Statement::Other => false,
    }
}

/// How many of the first `m` statements instantiate the class.
pub open spec fn located_count(ident: Seq<char>, body: Seq<Statement>, m: int) -> nat
    decreases m,
{
    if m <= 0 {
        0
    } else {
        located_count(ident, body, m - 1) + if locates(ident, body[m - 1]) {
            1nat
        } else {
            0nat
        }
    }
}

/// The first of the first `n` fields that is called `wanted`.
pub open spec fn first_init(fields: Seq<FieldInit>, wanted: Seq<char>, n: int) -> Option<int>
    decreases n,
{
    if n <= 0 {
        None
    } else {
        match first_init(fields, wanted, n - 1) {
            Some(i) => Some(i),
            None => match fields[n - 1].name {
                Some(name) => if name@ == wanted {
                    Some(n - 1)
                } else {
                    None
                },
                None => None,
            },
        }
    }
}

/// A field found among the first `n` is the one found among more.
pub proof fn lemma_found_init_stays(fields: Seq<FieldInit>, wanted: Seq<char>, n: int, m: int)
    requires
        0 <= n <= m <= fields.len(),
        first_init(fields, wanted, n) is Some,
    ensures
        first_init(fields, wanted, m) == first_init(fields, wanted, n),
    decreases m,
{
    if m > n {
        lemma_found_init_stays(fields, wanted, n, m - 1);
    }
}

/// The arguments that the rewriter appends to the call that constructs the
/// base at `b`: for the primary base the embedded table, and then the
/// class's static for every base that the directive adds; for any other
/// base the parameter that the constructor takes for it.
pub open spec fn handed_args(b: int, added: Seq<BaseRef>) -> Seq<CallArg> {
    if b == 0 {
        seq![CallArg::EmbeddedTable] + Seq::new(
            added.len(),
            |k: int| CallArg::Static { base: added[k] },
        )
    } else {
        seq![CallArg::Param { position: (b - 1) as usize }]
    }
}

/// The changes to the call of a base constructor are: the callee gets its
/// new name, and the handed arguments are appended in their order.
pub proof fn lemma_call_edits(stmt: int, field: int, b: int, added: Seq<BaseRef>)
    ensures
        call_edits(stmt, field, b, added) == seq![
            Edit::RenameCallee { stmt: stmt as usize, field: field as usize },
        ] + Seq::new(
            handed_args(b, added).len(),
            |k: int|
                Edit::PushArg {
                    stmt: stmt as usize,
                    field: field as usize,
                    arg: handed_args(b, added)[k],
                },
        ),
{
    assert(call_edits(stmt, field, b, added) =~= seq![
        Edit::RenameCallee { stmt: stmt as usize, field: field as usize },
    ] + Seq::new(
        handed_args(b, added).len(),
        |k: int|
            Edit::PushArg {
                stmt: stmt as usize,
                field: field as usize,
                arg: handed_args(b, added)[k],
            },
    ));
}

/// The changes to the call that constructs the base at `b`: the callee is
/// renamed; the primary base gets the embedded table and then the class's
/// static for every base that the directive adds; any other base gets the
/// parameter that the constructor takes for it.
pub open spec fn call_edits(stmt: int, field: int, b: int, added: Seq<BaseRef>) -> Seq<Edit> {
    let s = stmt as usize;
    let f = field as usize;
    if b == 0 {
        seq![
            Edit::RenameCallee { stmt: s, field: f },
            Edit::PushArg { stmt: s, field: f, arg: CallArg::EmbeddedTable },
        ] + Seq::new(
            added.len(),
            |k: int| Edit::PushArg { stmt: s, field: f, arg: CallArg::Static { base: added[k] } },
        )
    } else {
        seq![
            Edit::RenameCallee { stmt: s, field: f },
            Edit::PushArg { stmt: s, field: f, arg: CallArg::Param { position: (b - 1) as usize } },
        ]
    }
}

/// What the rewriter does for the base at `b` in one instantiation.
pub open spec fn base_plan(
    bases: Seq<BasePath>,
    added: Seq<BaseRef>,
    inst: Instantiation,
    stmt: int,
    b: int,
) -> Result<Seq<Edit>, GenError> {
    match first_init(inst.fields@, base_name_of(bases[b].ident@), inst.fields.len() as int) {
        None => Err(GenError::MissingBaseInitializer { base: b as usize }),
        Some(f) => match inst.fields@[f].init {
            Init::Other => Err(GenError::NonCallBaseInitializer { base: b as usize }),
            Init::OtherCall => Err(GenError::UnresolvableConstructorPath { base: b as usize }),
            Init::PathCall => Ok(call_edits(stmt, f, b, added)),
        },
    }
}

/// What the rewriter does for the first `n` bases in one instantiation: the
/// changes for each base in declaration order, or the first failure.
pub open spec fn bases_plan(
    bases: Seq<BasePath>,
    added: Seq<BaseRef>,
    inst: Instantiation,
    stmt: int,
    n: int,
) -> Result<Seq<Edit>, GenError>
    decreases n,
{
    if n <= 0 {
        Ok(Seq::empty())
    } else {
        match bases_plan(bases, added, inst, stmt, n - 1) {
            Err(e) => Err(e),
            Ok(edits) => match base_plan(bases, added, inst, stmt, n - 1) {
                Err(e) => Err(e),
                Ok(more) => Ok(edits + more),
            },
        }
    }
}

/// What the rewriter does to one instantiation of the class: where the class
/// has no base, the table pointer is stored; else every base is threaded.
pub open spec fn instantiation_plan(
    bases: Seq<BasePath>,
    added: Seq<BaseRef>,
    inst: Instantiation,
    stmt: int,
) -> Result<Seq<Edit>, GenError> {
    if bases.len() == 0 {
        Ok(seq![Edit::InsertTablePointer { stmt: stmt as usize }])
    } else {
        bases_plan(bases, added, inst, stmt, bases.len() as int)
    }
}

/// What the rewriter does to the first `m` statements of a body.
pub open spec fn body_plan(
    ident: Seq<char>,
    bases: Seq<BasePath>,
    added: Seq<BaseRef>,
    body: Seq<Statement>,
    m: int,
) -> Result<Seq<Edit>, GenError>
    decreases m,
{
    if m <= 0 {
        Ok(Seq::empty())
    } else {
        match body_plan(ident, bases, added, body, m - 1) {
            Err(e) => Err(e),
            Ok(edits) => match body[m - 1] {
                Statement::Instantiation(inst) => if locates(ident, body[m - 1]) {
                    match instantiation_plan(bases, added, inst, m - 1) {
                        Err(e) => Err(e),
                        Ok(more) => Ok(edits + more),
                    }
                } else {
                    Ok(edits)
                },
                Statement::Other => Ok(edits),
            },
        }
    }
}

/// What the rewriter does to a constructor: it fails where the body never
/// instantiates the class, else it rewrites every instantiation in order and
/// stops at the first failure.
pub open spec fn hook_of(class: &ItemClass, additional: Seq<SecondaryBase>, ctor: &Constructor) -> Result<
    Seq<Edit>,
    GenError,
> {
    if located_count(class.ident@, ctor.body@, ctor.body.len() as int) == 0 {
        Err(GenError::NoInstantiationFound)
    } else {
        body_plan(
            class.ident@,
            class.bases.bases@,
            all_added_of(class.bases.bases@, additional),
            ctor.body@,
            ctor.body.len() as int,
        )
    }
}

/// Whether a method-set block is one of the class: its self type ends in
/// the class's name.
pub fn is_impl_of(class: &ItemClass, self_type: &String) -> (res: bool)
    ensures
        res == (self_type@ == class.ident@),
{
    *self_type == *(&class.ident)
}

/// Whether a statement instantiates the class.
pub fn filter_instantiations(class: &ItemClass, stmt: &Statement) -> (res: bool)
    ensures
        res == locates(class.ident@, *stmt),
{
    match stmt {
        Statement::Instantiation(inst) => text_is(&inst.target, "Self") || *(&inst.target)
            == *(&class.ident),
        Statement::Other => false,
    }
}

/// Finds the first field of a name.
fn find_init(fields: &Vec<FieldInit>, wanted: &String) -> (res: Option<usize>)
    ensures
        match res {
            Some(i) => first_init(fields@, wanted@, fields.len() as int) == Some(i as int) && i
                < fields.len(),
            None => first_init(fields@, wanted@, fields.len() as int) is None,
        },
{
    let mut i: usize = 0;
    while i < fields.len()
        invariant
            i <= fields.len(),
            first_init(fields@, wanted@, i as int) is None,
        decreases fields.len() - i,
    {
        let hit = match &fields[i].name {
            Some(name) => *name == *wanted,
            None => false,
        };
        if hit {
            proof {
                lemma_found_init_stays(fields@, wanted@, i as int + 1, fields.len() as int);
            }
            return Some(i);
        }
        i += 1;
    }
    None
}

/// Appends the changes for one base of one instantiation.
fn hook_base(
    edits: &mut Vec<Edit>,
    class: &ItemClass,
    added: &Vec<BaseRef>,
    inst: &Instantiation,
    stmt: usize,
    b: usize,
) -> (res: Result<(), GenError>)
    requires
        b < class.bases.bases.len(),
    ensures
        match base_plan(class.bases.bases@, added@, *inst, stmt as int, b as int) {
            Ok(more) => res is Ok && final(edits)@ == old(edits)@ + more,
            Err(e) => res == Err::<(), GenError>(e),
        },
{
    let name = make_base_name(&class.bases.bases[b].ident);
    let f = match find_init(&inst.fields, &name) {
        Some(f) => f,
        None => {
            return Err(GenError::MissingBaseInitializer { base: b });
        },
    };
    match inst.fields[f].init {
        Init::Other => {
            return Err(GenError::NonCallBaseInitializer { base: b });
        },
        Init::OtherCall => {
            return Err(GenError::UnresolvableConstructorPath { base: b });
        },
        Init::PathCall => {},
    }
    let ghost start = edits@;
    let ghost want = call_edits(stmt as int, f as int, b as int, added@);
    edits.push(Edit::RenameCallee { stmt, field: f });
    if b == 0 {
        edits.push(Edit::PushArg { stmt, field: f, arg: CallArg::EmbeddedTable });
        let mut k: usize = 0;
        while k < added.len()
            invariant
                b == 0,
                k <= added.len(),
                want == call_edits(stmt as int, f as int, b as int, added@),
                edits@ == start + want.subrange(0, 2 + k as int),
            decreases added.len() - k,
        {
            edits.push(Edit::PushArg { stmt, field: f, arg: CallArg::Static { base: added[k] } });
            k += 1;
            proof {
                assert(edits@ =~= start + want.subrange(0, 2 + k as int));
            }
        }
        proof {
            assert(want.subrange(0, 2 + k as int) =~= want);
        }
    } else {
        edits.push(Edit::PushArg { stmt, field: f, arg: CallArg::Param { position: b - 1 } });
        proof {
            assert(edits@ =~= start + want);
        }
    }
    Ok(())
}

/// Appends the changes for one instantiation of the class.
fn hook_instantiation(
    edits: &mut Vec<Edit>,
    class: &ItemClass,
    added: &Vec<BaseRef>,
    inst: &Instantiation,
    stmt: usize,
) -> (res: Result<(), GenError>)
    ensures
        match instantiation_plan(class.bases.bases@, added@, *inst, stmt as int) {
            Ok(more) => res is Ok && final(edits)@ == old(edits)@ + more,
            Err(e) => res == Err::<(), GenError>(e),
        },
{
    let ghost start = edits@;
    if class.bases.bases.len() == 0 {
        edits.push(Edit::InsertTablePointer { stmt });
        proof {
            assert(edits@ =~= start + seq![Edit::InsertTablePointer { stmt }]);
        }
        return Ok(());
    }
    let mut b: usize = 0;
    while b < class.bases.bases.len()
        invariant
            b <= class.bases.bases.len(),
            bases_plan(class.bases.bases@, added@, *inst, stmt as int, b as int) matches Ok(done)
                && edits@ == start + done,
        decreases class.bases.bases.len() - b,
    {
        let ghost done = bases_plan(class.bases.bases@, added@, *inst, stmt as int, b as int)->Ok_0;
        match hook_base(edits, class, added, inst, stmt, b) {
            Ok(()) => {},
            Err(e) => {
                proof {
                    lemma_bases_plan_fails(
                        class.bases.bases@,
                        added@,
                        *inst,
                        stmt as int,
                        b as int + 1,
                        class.bases.bases.len() as int,
                    );
                }
                return Err(e);
            },
        }
        b += 1;
        proof {
            let more = base_plan(class.bases.bases@, added@, *inst, stmt as int, b as int - 1)->Ok_0;
            assert(edits@ =~= start + (done + more));
        }
    }
    Ok(())
}

/// Once the plan for the first `n` bases has failed, it has failed for more.
pub proof fn lemma_bases_plan_fails(
    bases: Seq<BasePath>,
    added: Seq<BaseRef>,
    inst: Instantiation,
    stmt: int,
    n: int,
    m: int,
)
    requires
        0 <= n <= m,
        bases_plan(bases, added, inst, stmt, n) is Err,
    ensures
        bases_plan(bases, added, inst, stmt, m) == bases_plan(bases, added, inst, stmt, n),
    decreases m,
{
    if m > n {
        lemma_bases_plan_fails(bases, added, inst, stmt, n, m - 1);
    }
}

/// Once the plan for the first `n` statements has failed, it has failed for
/// more.
pub proof fn lemma_body_plan_fails(
    ident: Seq<char>,
    bases: Seq<BasePath>,
    added: Seq<BaseRef>,
    body: Seq<Statement>,
    n: int,
    m: int,
)
    requires
        0 <= n <= m,
        body_plan(ident, bases, added, body, n) is Err,
    ensures
        body_plan(ident, bases, added, body, m) == body_plan(ident, bases, added, body, n),
    decreases m,
{
    if m > n {
        lemma_body_plan_fails(ident, bases, added, body, n, m - 1);
    }
}

/// Make the static constants that a stub supplies: the class's own, then one
/// per threaded base.
fn stub_statics(class: &ItemClass, additional: &Vec<SecondaryBase>, threaded: &Vec<BaseRef>) -> (res: Vec<String>)
    requires
        forall|j: int|
            0 <= j < threaded.len() ==> valid_ref(class.bases.bases@, additional@, #[trigger] threaded@[j]),
    ensures
        res.len() == 1 + threaded.len(),
        res@[0]@ == vtable_static_ident_of(class.ident@),
        forall|k: int|
            0 <= k < threaded.len() ==> (#[trigger] res@[1 + k])@ == vtable_static_ident_of(
                path_of(class.bases.bases@, additional@, threaded@[k]).ident@,
            ),
{
    let mut out: Vec<String> = Vec::new();
    out.push(make_vtable_static(&class.ident, &class.ident, Vec::new()).constant);
    let mut k: usize = 0;
    while k < threaded.len()
        invariant
            k <= threaded.len(),
            out.len() == 1 + k,
            out@[0]@ == vtable_static_ident_of(class.ident@),
            forall|j: int|
                0 <= j < threaded.len() ==> valid_ref(
                    class.bases.bases@,
                    additional@,
                    #[trigger] threaded@[j],
                ),
            forall|j: int|
                0 <= j < k ==> (#[trigger] out@[1 + j])@ == vtable_static_ident_of(
                    path_of(class.bases.bases@, additional@, threaded@[j]).ident@,
                ),
        decreases threaded.len() - k,
    {
        let path = resolve(class, additional, threaded[k]);
        let made = make_vtable_static(&class.ident, &path.ident, Vec::new());
        out.push(made.constant);
        proof {
            assert forall|j: int| 0 <= j < k + 1 implies (#[trigger] out@[1 + j])@
                == vtable_static_ident_of(
                path_of(class.bases.bases@, additional@, threaded@[j]).ident@,
            ) by {}
        }
        k += 1;
    }
    out
}

/// Make the names of the table parameters of the threaded bases.
fn threaded_param_names(class: &ItemClass, additional: &Vec<SecondaryBase>, threaded: &Vec<BaseRef>) -> (res: Vec<String>)
    requires
        forall|j: int|
            0 <= j < threaded.len() ==> valid_ref(class.bases.bases@, additional@, #[trigger] threaded@[j]),
    ensures
        res.len() == threaded.len(),
        forall|k: int|
            0 <= k < threaded.len() ==> (#[trigger] res@[k])@ == base_name_of(
                path_of(class.bases.bases@, additional@, threaded@[k]).ident@,
            ),
{
    let mut out: Vec<String> = Vec::new();
    let mut k: usize = 0;
    while k < threaded.len()
        invariant
            k <= threaded.len(),
            out.len() == k,
            forall|j: int|
                0 <= j < threaded.len() ==> valid_ref(
                    class.bases.bases@,
                    additional@,
                    #[trigger] threaded@[j],
                ),
            forall|j: int|
                0 <= j < k ==> (#[trigger] out@[j])@ == base_name_of(
                    path_of(class.bases.bases@, additional@, threaded@[j]).ident@,
                ),
        decreases threaded.len() - k,
    {
        let path = resolve(class, additional, threaded[k]);
        out.push(make_base_name(&path.ident));
        k += 1;
    }
    out
}

/// The plan `plan` is what the rewriter makes of the constructor: the
/// changes to the body, the new name, the added parameters with their
/// names, and the statics that the stub supplies (the class's own, then one
/// per threaded base).
pub open spec fn is_hook_plan(
    class: &ItemClass,
    additional: Seq<SecondaryBase>,
    ctor: &Constructor,
    plan: CtorPlan,
) -> bool {
    &&& hook_of(class, additional, ctor) == Ok::<Seq<Edit>, GenError>(plan.edits@)
    &&& plan.hidden_name@ == ctor_call_of(ctor.name@)
    &&& plan.threaded@ == threaded_bases_of(class.bases.bases@, additional)
    &&& plan.threaded_params.len() == plan.threaded.len()
    &&& forall|k: int|
        0 <= k < plan.threaded.len() ==> (#[trigger] plan.threaded_params@[k])@ == base_name_of(
            path_of(class.bases.bases@, additional, plan.threaded@[k]).ident@,
        )
    &&& plan.stub_statics.len() == 1 + plan.threaded.len()
    &&& plan.stub_statics@[0]@ == vtable_static_ident_of(class.ident@)
    &&& forall|k: int|
        0 <= k < plan.threaded.len() ==> (#[trigger] plan.stub_statics@[1 + k])@
            == vtable_static_ident_of(
            path_of(class.bases.bases@, additional, plan.threaded@[k]).ident@,
        )
}

/// Rewrites one constructor so that it takes and hands on table pointers.
///
/// It fails where the body never instantiates the class, and where an
/// instantiation does not construct a base by a call of a path. Otherwise the
/// plan holds the rewritten constructor's name, its added parameters, the
/// changes to its body, and what the public stub, which keeps the
/// constructor's name, hands to it.
pub fn hook_fn(class: &ItemClass, ctor: &Constructor, additional: &Vec<SecondaryBase>) -> (res: Result<
    CtorPlan,
    GenError,
>)
    ensures
        match hook_of(class, additional@, ctor) {
            Err(e) => res == Err::<CtorPlan, GenError>(e),
            Ok(_) => res matches Ok(plan) && is_hook_plan(class, additional@, ctor, plan),
        },
{
    let mut found = false;
    let mut s: usize = 0;
    while s < ctor.body.len()
        invariant
            s <= ctor.body.len(),
            found == (located_count(class.ident@, ctor.body@, s as int) > 0),
        decreases ctor.body.len() - s,
    {
        if filter_instantiations(class, &ctor.body[s]) {
            found = true;
        }
        s += 1;
    }
    if !found {
        return Err(GenError::NoInstantiationFound);
    }
    let added = collect_added_bases(class, additional);
    let mut edits: Vec<Edit> = Vec::new();
    let mut s: usize = 0;
    while s < ctor.body.len()
        invariant
            s <= ctor.body.len(),
            added@ == all_added_of(class.bases.bases@, additional@),
            located_count(class.ident@, ctor.body@, ctor.body.len() as int) > 0,
            body_plan(class.ident@, class.bases.bases@, added@, ctor.body@, s as int) matches Ok(done)
                && edits@ == done,
        decreases ctor.body.len() - s,
    {
        let ghost done = edits@;
        if filter_instantiations(class, &ctor.body[s]) {
            match &ctor.body[s] {
                Statement::Instantiation(inst) => {
                    match hook_instantiation(&mut edits, class, &added, inst, s) {
                        Ok(()) => {},
                        Err(e) => {
                            proof {
                                assert(ctor.body@[s as int] == Statement::Instantiation(*inst));
                                assert(instantiation_plan(class.bases.bases@, added@, *inst, s as int)
                                    == Err::<Seq<Edit>, GenError>(e));
                                assert(body_plan(
                                    class.ident@,
                                    class.bases.bases@,
                                    added@,
                                    ctor.body@,
                                    s as int + 1,
                                ) == Err::<Seq<Edit>, GenError>(e));
                                lemma_body_plan_fails(
                                    class.ident@,
                                    class.bases.bases@,
                                    added@,
                                    ctor.body@,
                                    s as int + 1,
                                    ctor.body.len() as int,
                                );
                            }
                            return Err(e);
                        },
                    }
                },
                Statement::Other => {},
            }
        }
        s += 1;
    }
    let threaded = collect_threaded_bases(class, additional);
    let threaded_params = threaded_param_names(class, additional, &threaded);
    let statics = stub_statics(class, additional, &threaded);
    Ok(
        CtorPlan {
            hidden_name: make_ctor_call(&ctor.name),
            threaded,
            threaded_params,
            edits,
            stub_statics: statics,
        },
    )
}

/// What the rewriter makes of the first `n` constructors: the first failure,
/// or the changes to each.
pub open spec fn hooks_of(
    class: &ItemClass,
    additional: Seq<SecondaryBase>,
    ctors: Seq<Constructor>,
    n: int,
) -> Result<Seq<Seq<Edit>>, GenError>
    decreases n,
{
    if n <= 0 {
        Ok(Seq::empty())
    } else {
        match hooks_of(class, additional, ctors, n - 1) {
            Err(e) => Err(e),
            Ok(plans) => match hook_of(class, additional, &ctors[n - 1]) {
                Err(e) => Err(e),
                Ok(edits) => Ok(plans.push(edits)),
            },
        }
    }
}

/// Once the rewriter has failed on the first `n` constructors, it has failed
/// on more.
pub proof fn lemma_hooks_fail(
    class: &ItemClass,
    additional: Seq<SecondaryBase>,
    ctors: Seq<Constructor>,
    n: int,
    m: int,
)
    requires
        0 <= n <= m,
        hooks_of(class, additional, ctors, n) is Err,
    ensures
        hooks_of(class, additional, ctors, m) == hooks_of(class, additional, ctors, n),
    decreases m,
{
    if m > n {
        lemma_hooks_fail(class, additional, ctors, n, m - 1);
    }
}

/// Rewrites all constructors of a class, in order, and stops at the first
/// that fails. A definition without a method-set block gets nothing.
pub fn gen_hooks(def: &CppDef, additional: &Vec<SecondaryBase>) -> (res: Result<
    Option<Vec<CtorPlan>>,
    GenError,
>)
    ensures
        def.new_impl is None ==> res == Ok::<Option<Vec<CtorPlan>>, GenError>(None),
        def.new_impl is Some ==> (match hooks_of(
            &def.class,
            additional@,
            constructors_of(def),
            constructors_of(def).len() as int,
        ) {
            Err(e) => res == Err::<Option<Vec<CtorPlan>>, GenError>(e),
            Ok(_) => res matches Ok(Some(plans)) && plans.len() == constructors_of(def).len()
                && forall|k: int|
                0 <= k < plans.len() ==> is_hook_plan(
                    &def.class,
                    additional@,
                    &constructors_of(def)[k],
                    #[trigger] plans@[k],
                ),
        }),
{
    let ctors = match &def.new_impl {
        Some(ctors) => ctors,
        None => {
            return Ok(None);
        },
    };
    let class = &def.class;
    let mut plans: Vec<CtorPlan> = Vec::new();
    let mut k: usize = 0;
    while k < ctors.len()
        invariant
            def.new_impl is Some,
            constructors_of(def) == ctors@,
            *class == def.class,
            k <= ctors.len(),
            plans.len() == k,
            hooks_of(class, additional@, ctors@, k as int) is Ok,
            forall|j: int|
                0 <= j < k ==> is_hook_plan(class, additional@, &ctors@[j], #[trigger] plans@[j]),
        decreases ctors.len() - k,
    {
        let ghost all = hooks_of(class, additional@, ctors@, k as int)->Ok_0;
        match hook_fn(class, &ctors[k], additional) {
            Ok(plan) => {
                let ghost prev = plans@;
                plans.push(plan);
                proof {
                    let edits = hook_of(class, additional@, &ctors@[k as int])->Ok_0;
                    assert(hooks_of(class, additional@, ctors@, k as int + 1) == Ok::<
                        Seq<Seq<Edit>>,
                        GenError,
                    >(all.push(edits)));
                    assert forall|j: int| 0 <= j < k + 1 implies is_hook_plan(
                        class,
                        additional@,
                        &ctors@[j],
                        #[trigger] plans@[j],
                    ) by {
                        if j < k {
                            assert(plans@[j] == prev[j]);
                        }
                    }
                }
            },
            Err(e) => {
                proof {
                    assert(hooks_of(class, additional@, ctors@, k as int + 1) == Err::<
                        Seq<Seq<Edit>>,
                        GenError,
                    >(e));
                    lemma_hooks_fail(class, additional@, ctors@, k as int + 1, ctors.len() as int);
                }
                return Err(e);
            },
        }
        k += 1;
    }
    Ok(Some(plans))
}

/// Two lists of fields say the same: the same names, initialized in the
/// same way, in the same order.
pub open spec fn same_fields(a: Seq<FieldInit>, b: Seq<FieldInit>) -> bool {
    a.len() == b.len() && forall|k: int|
        0 <= k < a.len() ==> (#[trigger] a[k]).init == b[k].init && same_option(a[k].name, b[k].name)
}

/// Two statements say the same.
pub open spec fn same_statement(a: Statement, b: Statement) -> bool {
    match (a, b) {
        (Statement::Instantiation(x), Statement::Instantiation(y)) => x.target@ == y.target@
            && same_fields(x.fields@, y.fields@),
        (Statement::Other, Statement::Other) => true,
        _ => false,
    }
}

/// Two constructors say the same: the same name, the same parameters and
/// the same statements.
pub open spec fn same_constructor(a: Constructor, b: Constructor) -> bool {
    &&& a.name@ == b.name@
    &&& a.params.len() == b.params.len()
    &&& forall|k: int|
        0 <= k < a.params.len() ==> same_option((#[trigger] a.params@[k]).name, b.params@[k].name)
            && a.params@[k].ty@ == b.params@[k].ty@
    &&& a.body.len() == b.body.len()
    &&& forall|k: int| 0 <= k < a.body.len() ==> same_statement(#[trigger] a.body@[k], b.body@[k])
}

/// A field is found at the same place in two lists that say the same.
pub proof fn lemma_same_first_init(a: Seq<FieldInit>, b: Seq<FieldInit>, wanted: Seq<char>, n: int)
    requires
        same_fields(a, b),
        0 <= n <= a.len(),
    ensures
        first_init(a, wanted, n) == first_init(b, wanted, n),
    decreases n,
{
    if n > 0 {
        lemma_same_first_init(a, b, wanted, n - 1);
        assert(same_option(a[n - 1].name, b[n - 1].name));
    }
}

/// The first field of a name is found at or before any field of that name.
pub proof fn lemma_init_found(fields: Seq<FieldInit>, wanted: Seq<char>, j: int, n: int)
    requires
        0 <= j < n <= fields.len(),
        fields[j].name matches Some(x) && x@ == wanted,
    ensures
        first_init(fields, wanted, n) matches Some(i) && 0 <= i <= j,
    decreases n,
{
    if n - 1 > j {
        lemma_init_found(fields, wanted, j, n - 1);
    } else {
        lemma_first_init_bound(fields, wanted, n - 1);
    }
}

/// The field found lies among the fields looked at.
pub proof fn lemma_first_init_bound(fields: Seq<FieldInit>, wanted: Seq<char>, n: int)
    requires
        0 <= n <= fields.len(),
    ensures
        first_init(fields, wanted, n) matches Some(i) ==> 0 <= i < n,
    decreases n,
{
    if n > 0 {
        lemma_first_init_bound(fields, wanted, n - 1);
    }
}

/// The rewriter does the same for the bases in two instantiations that say
/// the same.
pub proof fn lemma_same_bases_plan(
    bases: Seq<BasePath>,
    added: Seq<BaseRef>,
    x: Instantiation,
    y: Instantiation,
    stmt: int,
    n: int,
)
    requires
        same_fields(x.fields@, y.fields@),
    ensures
        bases_plan(bases, added, x, stmt, n) == bases_plan(bases, added, y, stmt, n),
    decreases n,
{
    if n > 0 {
        lemma_same_bases_plan(bases, added, x, y, stmt, n - 1);
        let wanted = base_name_of(bases[n - 1].ident@);
        lemma_same_first_init(x.fields@, y.fields@, wanted, x.fields.len() as int);
        lemma_first_init_bound(x.fields@, wanted, x.fields.len() as int);
        match first_init(x.fields@, wanted, x.fields.len() as int) {
            Some(f) => {
                assert(x.fields@[f].init == y.fields@[f].init);
            },
            None => {},
        }
    }
}

/// The rewriter does the same to the first `m` statements of two bodies
/// that say the same.
pub proof fn lemma_same_body_plan(
    ident: Seq<char>,
    bases: Seq<BasePath>,
    added: Seq<BaseRef>,
    a: Seq<Statement>,
    b: Seq<Statement>,
    m: int,
)
    requires
        a.len() == b.len(),
        forall|k: int| 0 <= k < a.len() ==> same_statement(#[trigger] a[k], b[k]),
        0 <= m <= a.len(),
    ensures
        body_plan(ident, bases, added, a, m) == body_plan(ident, bases, added, b, m),
        located_count(ident, a, m) == located_count(ident, b, m),
    decreases m,
{
    if m > 0 {
        lemma_same_body_plan(ident, bases, added, a, b, m - 1);
        assert(same_statement(a[m - 1], b[m - 1]));
        match (a[m - 1], b[m - 1]) {
            (Statement::Instantiation(x), Statement::Instantiation(y)) => {
                lemma_same_bases_plan(bases, added, x, y, m - 1, bases.len() as int);
            },
            _ => {},
        }
    }
}

/// The rewriter reads of a constructor only what it says: for two
/// constructors that say the same it makes the same changes, or fails in the
/// same way.
pub proof fn lemma_same_hook(
    class: &ItemClass,
    additional: Seq<SecondaryBase>,
    a: Constructor,
    b: Constructor,
)
    requires
        same_constructor(a, b),
    ensures
        hook_of(class, additional, &a) == hook_of(class, additional, &b),
{
    lemma_same_body_plan(
        class.ident@,
        class.bases.bases@,
        all_added_of(class.bases.bases@, additional),
        a.body@,
        b.body@,
        a.body.len() as int,
    );
}

} // verus!
