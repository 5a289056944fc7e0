//! The dispatch interface of a class: the contract that an implementor
//! meets, and the standard form of the signatures in it.

use vstd::prelude::*;
use vstd::string::*;
use crate::decl::{claims_of, GenError, GenVTable, ItemClass, Receiver, Virtual};
use crate::naming::{
    def_generic_ident_of, make_def_generic_ident, make_virtuals, make_virtuals_macro_ident,
    make_vtable_ident, virtuals_macro_ident_of, virtuals_of, vtable_ident_of,
};
use crate::slots::{
    claim_of, claims_fit, distinct_claims, lemma_table_places_every_virtual, table_of, Slot,
};
use crate::attrs::text_is;
use crate::vtable::{
    extract_implementor_generics, template_arg_of, template_params_of, TemplateArg,
};

verus! {

/// The standard form of a virtual's signature: its calling convention, and
/// whether its first parameter, the object, is taken exclusively.
#[derive(Clone, Debug, PartialEq, Eq)]
pub struct StandardSignature {
    pub abi: String,
    pub exclusive: bool,
}

/// The calling convention of a virtual: the one it names, or `C`.
pub open spec fn abi_of(virt: Virtual) -> Seq<char> {
    match virt.abi {
        Some(abi) => abi@,
        None => "C"@,
    }
}

/// Whether each of the first `n` virtuals takes the object by reference.
pub open spec fn all_take_self(virtuals: Seq<Virtual>, n: int) -> bool {
    forall|i: int| 0 <= i < n ==> (#[trigger] virtuals[i]).receiver != Receiver::Absent
}

/// The signatures `sigs` are the standard forms of the class's virtuals.
pub open spec fn is_standard_of(class: &ItemClass, sigs: Seq<StandardSignature>) -> bool {
    &&& sigs.len() == class.body.virtuals.len()
    &&& forall|i: int|
        0 <= i < sigs.len() ==> (#[trigger] sigs[i]).abi@ == abi_of(class.body.virtuals@[i])
            && sigs[i].exclusive == (class.body.virtuals@[i].receiver == Receiver::Exclusive)
}

/// Standardizes the calling convention and the signatures of the virtuals:
/// a virtual that names no calling convention gets the C one, and the
/// receiver becomes an explicit first parameter of the class's type.
///
/// It fails at the first virtual that does not take `&self` or `&mut self`.
pub fn standardize_virtuals(class: &ItemClass) -> (res: Result<Vec<StandardSignature>, GenError>)
    ensures
        match res {
            Ok(sigs) => all_take_self(class.body.virtuals@, class.body.virtuals.len() as int)
                && is_standard_of(class, sigs@),
            Err(GenError::MalformedDeclaration { virt }) => virt < class.body.virtuals.len()
                && all_take_self(class.body.virtuals@, virt as int)
                && class.body.virtuals@[virt as int].receiver == Receiver::Absent,
            Err(_) => false,
        },
{
    let mut sigs: Vec<StandardSignature> = Vec::new();
    let mut i: usize = 0;
    while i < class.body.virtuals.len()
        invariant
            i <= class.body.virtuals.len(),
            sigs.len() == i,
            all_take_self(class.body.virtuals@, i as int),
            forall|j: int|
                0 <= j < i ==> (#[trigger] sigs@[j]).abi@ == abi_of(class.body.virtuals@[j])
                    && sigs@[j].exclusive == (class.body.virtuals@[j].receiver == Receiver::Exclusive),
        decreases class.body.virtuals.len() - i,
    {
        let virt = &class.body.virtuals[i];
        let exclusive = match virt.receiver {
            Receiver::Absent => {
                return Err(GenError::MalformedDeclaration { virt: i });
            },
            Receiver::Shared => false,
            Receiver::Exclusive => true,
        };
        let abi = match &virt.abi {
            Some(abi) => abi.clone(),
            None => String::from_str("C"),
        };
        sigs.push(StandardSignature { abi, exclusive });
        i += 1;
    }
    Ok(sigs)
}

/// One method of the forwarding implementation: it reads the function
/// pointer at `slot` of the table that the object points to, calls it with
/// the forwarded arguments and returns what the call returns.
#[derive(Clone, Debug, PartialEq, Eq)]
pub struct ForwardMethod {
    /// The slot of the virtual; nothing where the slot is beyond any table.
    pub slot: Option<usize>,
    /// The arguments handed on: the object first, then every declared
    /// parameter by its name; nothing for a parameter that has no name.
    pub forwarded: Vec<Option<String>>,
}

/// The template that implements the interface of a class for an
/// implementor by forwarding: every method calls through the table of the
/// object it is given.
#[derive(Clone, Debug, PartialEq, Eq)]
pub struct ForwardPlan {
    /// The template's name.
    pub template: String,
    /// The interface that it implements.
    pub interface: String,
    /// The table type as which every method reads the stored pointer.
    pub table: String,
    /// Its parameters after the implementor: one per generic of the class.
    pub params: Vec<String>,
    /// The forwarding templates of the bases, which it invokes first.
    pub parent_templates: Vec<String>,
    /// What it hands to each of them.
    pub parent_args: Vec<Vec<TemplateArg>>,
    /// One method per virtual, in declaration order.
    pub methods: Vec<ForwardMethod>,
}

/// The method `m` forwards the virtual at `i`: it reads the slot that the
/// virtual claims, and hands on the object and every named parameter, in
/// the order of the standard signature.
pub open spec fn is_forward_of(claims: Seq<Option<usize>>, virt: Virtual, i: int, m: ForwardMethod) -> bool {
    &&& match m.slot {
        Some(s) => s == claim_of(claims, i),
        None => claim_of(claims, i) > usize::MAX,
    }
    &&& m.forwarded.len() == virt.params.len() + 1
    &&& m.forwarded@[0] matches Some(this) && this@ == "this"@
    &&& forall|k: int|
        0 <= k < virt.params.len() ==> match (
            (#[trigger] m.forwarded@[k + 1]),
            virt.params@[k].name,
        ) {
            (Some(u), Some(n)) => u@ == n@,
            (None, None) => true,
            _ => false,
        }
}

/// The plan `plan` is the forwarding template of the class.
pub open spec fn is_forward_plan(class: &ItemClass, plan: ForwardPlan) -> bool {
    &&& plan.template@ == virtuals_macro_ident_of(class.ident@)
    &&& plan.interface@ == virtuals_of(class.ident@)
    &&& plan.table@ == vtable_ident_of(class.ident@)
    &&& crate::text::texts_of(plan.params@) == template_params_of(class.generics.len() as nat)
    &&& plan.parent_templates.len() == class.bases.bases.len()
    &&& plan.parent_args.len() == class.bases.bases.len()
    &&& forall|k: int|
        0 <= k < class.bases.bases.len() ==> (#[trigger] plan.parent_templates@[k])@
            == virtuals_macro_ident_of(class.bases.bases@[k].ident@)
    &&& forall|k: int|
        0 <= k < class.bases.bases.len() ==> (#[trigger] plan.parent_args@[k])@ == Seq::new(
            class.bases.bases@[k].args@.len(),
            |j: int| template_arg_of(class.generics@, class.bases.bases@[k].args@, j),
        )
    &&& plan.methods.len() == class.body.virtuals.len()
    &&& forall|i: int|
        0 <= i < class.body.virtuals.len() ==> is_forward_of(
            claims_of(class.body.virtuals@),
            class.body.virtuals@[i],
            i,
            #[trigger] plan.methods@[i],
        )
}

/// Where the slots of a class can be allocated, the forwarding method of a
/// virtual reads the slot in which the table holds that virtual.
pub proof fn lemma_forward_reads_own_slot(class: &ItemClass, plan: ForwardPlan, i: int)
    requires
        is_forward_plan(class, plan),
        0 <= i < class.body.virtuals.len(),
        distinct_claims(claims_of(class.body.virtuals@), class.body.virtuals.len() as int),
        claims_fit(claims_of(class.body.virtuals@), class.body.virtuals.len() as int),
    ensures
        plan.methods@[i].slot matches Some(s) && s < table_of(
            claims_of(class.body.virtuals@),
        ).len() && table_of(claims_of(class.body.virtuals@))[s as int] == Slot::Method(i as usize),
{
    let claims = claims_of(class.body.virtuals@);
    lemma_table_places_every_virtual(claims);
    assert(is_forward_of(claims, class.body.virtuals@[i], i, plan.methods@[i]));
    assert(claim_of(claims, i) < usize::MAX);
}

/// The arguments that the forwarding method of one virtual hands on.
fn forwarded_args(virt: &Virtual) -> (res: Vec<Option<String>>)
    ensures
        res.len() == virt.params.len() + 1,
        res@[0] matches Some(this) && this@ == "this"@,
        forall|k: int|
            0 <= k < virt.params.len() ==> match ((#[trigger] res@[k + 1]), virt.params@[k].name) {
                (Some(u), Some(n)) => u@ == n@,
                (None, None) => true,
                _ => false,
            },
{
    let mut names: Vec<Option<String>> = Vec::new();
    names.push(Some(String::from_str("this")));
    let mut k: usize = 0;
    while k < virt.params.len()
        invariant
            k <= virt.params.len(),
            names.len() == k + 1,
            names@[0] matches Some(t) && t@ == "this"@,
            forall|j: int|
                0 <= j < k ==> match ((#[trigger] names@[j + 1]), virt.params@[j].name) {
                    (Some(u), Some(n)) => u@ == n@,
                    (None, None) => true,
                    _ => false,
                },
        decreases virt.params.len() - k,
    {
        let ghost prev = names@;
        let name = match &virt.params[k].name {
            Some(n) => Some(n.clone()),
            None => None,
        };
        names.push(name);
        proof {
            assert forall|j: int| 0 <= j < k + 1 implies match (
                (#[trigger] names@[j + 1]),
                virt.params@[j].name,
            ) {
                (Some(u), Some(n)) => u@ == n@,
                (None, None) => true,
                _ => false,
            } by {
                if j < k {
                    assert(names@[j + 1] == prev[j + 1]);
                }
            }
        }
        k += 1;
    }
    names
}

/// Generates the template that implements the interface of a class by
/// forwarding: it invokes the forwarding template of every base first, then
/// implements the class's own interface, one method per virtual; each reads
/// the function pointer at the virtual's slot in the table of the object it
/// is given, and calls it with the arguments it was given.
pub fn gen_unimpl_macro(class: &ItemClass) -> (res: ForwardPlan)
    ensures
        is_forward_plan(class, res),
{
    let mut params: Vec<String> = Vec::new();
    let mut k: usize = 0;
    while k < class.generics.len()
        invariant
            k <= class.generics.len(),
            params.len() == k,
            forall|i: int| 0 <= i < k ==> (#[trigger] params@[i])@ == def_generic_ident_of(i as nat),
        decreases class.generics.len() - k,
    {
        params.push(make_def_generic_ident(k));
        k += 1;
    }
    proof {
        assert(crate::text::texts_of(params@) =~= template_params_of(
            class.generics.len() as nat,
        ));
    }
    let mut templates: Vec<String> = Vec::new();
    let mut args: Vec<Vec<TemplateArg>> = Vec::new();
    let mut k: usize = 0;
    while k < class.bases.bases.len()
        invariant
            k <= class.bases.bases.len(),
            templates.len() == k,
            args.len() == k,
            forall|j: int|
                0 <= j < k ==> (#[trigger] templates@[j])@ == virtuals_macro_ident_of(
                    class.bases.bases@[j].ident@,
                ),
            forall|j: int|
                0 <= j < k ==> (#[trigger] args@[j])@ == Seq::new(
                    class.bases.bases@[j].args@.len(),
                    |i: int| template_arg_of(class.generics@, class.bases.bases@[j].args@, i),
                ),
        decreases class.bases.bases.len() - k,
    {
        templates.push(make_virtuals_macro_ident(&class.bases.bases[k].ident));
        args.push(extract_implementor_generics(class, k));
        k += 1;
    }
    let ghost claims = claims_of(class.body.virtuals@);
    let mut methods: Vec<ForwardMethod> = Vec::new();
    let mut last: Option<usize> = None;
    let mut i: usize = 0;
    while i < class.body.virtuals.len()
        invariant
            claims == claims_of(class.body.virtuals@),
            i <= class.body.virtuals.len(),
            methods.len() == i,
            i > 0 ==> (match last {
                Some(p) => p == claim_of(claims, i as int - 1),
                None => claim_of(claims, i as int - 1) > usize::MAX,
            }),
            forall|j: int|
                0 <= j < i ==> is_forward_of(
                    claims,
                    class.body.virtuals@[j],
                    j,
                    #[trigger] methods@[j],
                ),
        decreases class.body.virtuals.len() - i,
    {
        let virt = &class.body.virtuals[i];
        let slot: Option<usize> = match virt.index.idx {
            Some(k) => Some(k),
            None => if i == 0 {
                Some(0)
            } else {
                match last {
                    Some(p) => if p < usize::MAX {
                        Some(p + 1)
                    } else {
                        None
                    },
                    None => None,
                }
            },
        };
        proof {
            assert(claims[i as int] == virt.index.idx);
        }
        last = slot;
        let ghost prev = methods@;
        methods.push(ForwardMethod { slot, forwarded: forwarded_args(virt) });
        proof {
            assert forall|j: int| 0 <= j < i + 1 implies is_forward_of(
                claims,
                class.body.virtuals@[j],
                j,
                #[trigger] methods@[j],
            ) by {
                if j < i {
                    assert(methods@[j] == prev[j]);
                }
            }
        }
        i += 1;
    }
    ForwardPlan {
        template: make_virtuals_macro_ident(&class.ident),
        interface: make_virtuals(&class.ident),
        table: make_vtable_ident(&class.ident),
        params,
        parent_templates: templates,
        parent_args: args,
        methods,
    }
}

/// The dispatch interface of a class.
#[derive(Clone, Debug, PartialEq, Eq)]
pub struct InterfacePlan {
    /// The interface's name.
    pub name: String,
    /// The interfaces of the bases, which it extends, in declaration order.
    pub parents: Vec<String>,
    /// The template that implements the interface by forwarding.
    pub forwarding: ForwardPlan,
    /// Whether the forwarding template is applied to the class itself.
    pub apply_forwarding: bool,
}

/// The plan `plan` is the dispatch interface of the class: it is named for
/// the class, extends the interface of every base, and comes with the
/// forwarding template, which calls that of every base first.
pub open spec fn is_interface_of(class: &ItemClass, options: GenVTable, plan: InterfacePlan) -> bool {
    &&& plan.name@ == virtuals_of(class.ident@)
    &&& plan.apply_forwarding == !options.no_unimpl
    &&& plan.parents.len() == class.bases.bases.len()
    &&& forall|k: int|
        0 <= k < class.bases.bases.len() ==> (#[trigger] plan.parents@[k])@ == virtuals_of(
            class.bases.bases@[k].ident@,
        )
    &&& is_forward_plan(class, plan.forwarding)
}

/// Generates the dispatch interface of a class: one required method per
/// declared virtual, the interfaces of all bases as parents, the forwarding
/// template, and, unless the options say otherwise, its use on the class.
pub fn gen_trait(class: &ItemClass, options: GenVTable) -> (res: InterfacePlan)
    ensures
        is_interface_of(class, options, res),
{
    let mut parents: Vec<String> = Vec::new();
    let mut k: usize = 0;
    while k < class.bases.bases.len()
        invariant
            k <= class.bases.bases.len(),
            parents.len() == k,
            forall|j: int|
                0 <= j < k ==> (#[trigger] parents@[j])@ == virtuals_of(
                    class.bases.bases@[j].ident@,
                ),
        decreases class.bases.bases.len() - k,
    {
        parents.push(make_virtuals(&class.bases.bases[k].ident));
        k += 1;
    }
    InterfacePlan {
        name: make_virtuals(&class.ident),
        parents,
        forwarding: gen_unimpl_macro(class),
        apply_forwarding: !options.no_unimpl,
    }
}

/// What one more key makes of what was read: `no_unimpl` may occur once,
/// and nothing else is known.
pub open spec fn key_read(seen: bool, key: Seq<char>, k: int) -> Result<bool, GenError> {
    if key == "no_unimpl"@ {
        if seen {
            Err(GenError::DuplicateConfigurationOption { option: k as usize })
        } else {
            Ok(true)
        }
    } else {
        Err(GenError::UnrecognizedConfigurationOption { option: k as usize })
    }
}

/// What the first `n` keys of the table-generation directive say: whether
/// `no_unimpl` is set, or the first failure among them, a key that is not
/// known or one that occurs a second time.
pub open spec fn keys_read(keys: Seq<String>, n: int) -> Result<bool, GenError>
    decreases n,
{
    if n <= 0 {
        Ok(false)
    } else {
        match keys_read(keys, n - 1) {
            Err(e) => Err(e),
            Ok(seen) => key_read(seen, keys[n - 1]@, n - 1),
        }
    }
}

/// Once reading has failed, it has failed for more keys too.
pub proof fn lemma_keys_fail(keys: Seq<String>, n: int, m: int)
    requires
        0 <= n <= m,
        keys_read(keys, n) is Err,
    ensures
        keys_read(keys, m) == keys_read(keys, n),
    decreases m,
{
    if m > n {
        lemma_keys_fail(keys, n, m - 1);
    }
}

/// What reading all keys gives, as the options of the directive.
pub open spec fn gen_vtable_of(keys: Seq<String>) -> Result<GenVTable, GenError> {
    match keys_read(keys, keys.len() as int) {
        Ok(seen) => Ok(GenVTable { no_unimpl: seen }),
        Err(e) => Err(e),
    }
}

/// Reads the options of the table-generation directive from its keys, in
/// order, and fails at the first that is unknown or occurs a second time.
pub fn parse_gen_vtable(keys: &Vec<String>) -> (res: Result<GenVTable, GenError>)
    ensures
        res == gen_vtable_of(keys@),
        res matches Err(e) ==> e is DuplicateConfigurationOption
            || e is UnrecognizedConfigurationOption,
{
    let mut no_unimpl = false;
    let mut k: usize = 0;
    while k < keys.len()
        invariant
            k <= keys.len(),
            keys_read(keys@, k as int) == Ok::<bool, GenError>(no_unimpl),
        decreases keys.len() - k,
    {
        if text_is(&keys[k], "no_unimpl") {
            if no_unimpl {
                proof {
                    lemma_keys_fail(keys@, k as int + 1, keys.len() as int);
                }
                return Err(GenError::DuplicateConfigurationOption { option: k });
            }
            no_unimpl = true;
        } else {
            proof {
                lemma_keys_fail(keys@, k as int + 1, keys.len() as int);
            }
            return Err(GenError::UnrecognizedConfigurationOption { option: k });
        }
        k += 1;
    }
    Ok(GenVTable { no_unimpl })
}

} // verus!
