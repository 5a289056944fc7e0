//! The attribute front end: the user writes the object and its table as two
//! structs, and attributes add the table pointer, the dispatch interface,
//! the default constructor and the threading of the table through `new`.

use vstd::prelude::*;
use vstd::string::*;
use crate::attrs::text_is;
use crate::ctor::Init;
use crate::decl::{GenError, Param};
use crate::naming::{make_virtuals, make_vtable_ident, virtuals_of, vtable_ident_of};
use crate::text::{uppercase, uppercase_of};

verus! {

/// The options of the table attribute: the base, and whether the interface
/// of the base is left for the user to implement.
#[derive(Clone, Debug, PartialEq, Eq, Default)]
pub struct GenVTableAttributes {
    pub base: Option<String>,
    pub no_base_trait_impl: bool,
}

/// One option as it is written: its key and, after `=`, its value.
#[derive(Clone, Debug, PartialEq, Eq)]
pub struct OptionEntry {
    pub key: String,
    pub value: Option<String>,
}

/// What the options read so far have set: the base, if `base` occurred, and
/// whether `no_base_trait_impl` occurred.
pub struct OptionsRead {
    pub base: Option<Seq<char>>,
    pub flag: bool,
}

/// What one more option makes of what was read: `base` takes a value and
/// may occur once, `no_base_trait_impl` may occur once, and nothing else is
/// known.
pub open spec fn option_read(read: OptionsRead, entry: OptionEntry, k: int) -> Result<
    OptionsRead,
    GenError,
> {
    if entry.key@ == "base"@ {
        if read.base is Some {
            Err(GenError::DuplicateConfigurationOption { option: k as usize })
        } else {
            match entry.value {
                Some(v) => Ok(OptionsRead { base: Some(v@), flag: read.flag }),
                None => Err(GenError::UnrecognizedConfigurationOption { option: k as usize }),
            }
        }
    } else if entry.key@ == "no_base_trait_impl"@ {
        if read.flag {
            Err(GenError::DuplicateConfigurationOption { option: k as usize })
        } else {
            Ok(OptionsRead { base: read.base, flag: true })
        }
    } else {
        Err(GenError::UnrecognizedConfigurationOption { option: k as usize })
    }
}

/// What the first `n` options set, or the first failure among them.
pub open spec fn options_read(options: Seq<OptionEntry>, n: int) -> Result<OptionsRead, GenError>
    decreases n,
{
    if n <= 0 {
        Ok(OptionsRead { base: None, flag: false })
    } else {
        match options_read(options, n - 1) {
            Err(e) => Err(e),
            Ok(read) => option_read(read, options[n - 1], n - 1),
        }
    }
}

/// Once reading has failed, it has failed for more options too.
pub proof fn lemma_options_fail(options: Seq<OptionEntry>, n: int, m: int)
    requires
        0 <= n <= m,
        options_read(options, n) is Err,
    ensures
        options_read(options, m) == options_read(options, n),
    decreases m,
{
    if m > n {
        lemma_options_fail(options, n, m - 1);
    }
}

/// The plain values of the options.
pub open spec fn attributes_view(a: GenVTableAttributes) -> OptionsRead {
    OptionsRead {
        base: match a.base {
            Some(b) => Some(b@),
            None => None,
        },
        flag: a.no_base_trait_impl,
    }
}

impl GenVTableAttributes {
    /// Reads the options of the table attribute, in order, and fails at the
    /// first that is unknown or occurs a second time.
    pub fn from_derive_input(options: &Vec<OptionEntry>) -> (res: Result<GenVTableAttributes, GenError>)
        ensures
            match options_read(options@, options.len() as int) {
                Ok(read) => res matches Ok(a) && attributes_view(a) == read,
                Err(e) => res == Err::<GenVTableAttributes, GenError>(e),
            },
    {
        let mut base: Option<String> = None;
        let mut flag = false;
        let mut k: usize = 0;
        while k < options.len()
            invariant
                k <= options.len(),
                options_read(options@, k as int) == Ok::<OptionsRead, GenError>(
                    OptionsRead {
                        base: match base {
                            Some(b) => Some(b@),
                            None => None,
                        },
                        flag,
                    },
                ),
            decreases options.len() - k,
        {
            let entry = &options[k];
            let mut failure: Option<GenError> = None;
            if text_is(&entry.key, "base") {
                if base.is_some() {
                    failure = Some(GenError::DuplicateConfigurationOption { option: k });
                } else {
                    match &entry.value {
                        Some(v) => {
                            base = Some(v.clone());
                        },
                        None => {
                            failure = Some(
                                GenError::UnrecognizedConfigurationOption { option: k },
                            );
                        },
                    }
                }
            } else if text_is(&entry.key, "no_base_trait_impl") {
                if flag {
                    failure = Some(GenError::DuplicateConfigurationOption { option: k });
                } else {
                    flag = true;
                }
            } else {
                failure = Some(GenError::UnrecognizedConfigurationOption { option: k });
            }
            match failure {
                Some(e) => {
                    proof {
                        lemma_options_fail(options@, k as int + 1, options.len() as int);
                    }
                    return Err(e);
                },
                None => {},
            }
            k += 1;
        }
        Ok(GenVTableAttributes { base, no_base_trait_impl: flag })
    }
}

/// Whether a name ends in `VTable`.
pub open spec fn names_table(name: Seq<char>) -> bool {
    name.len() >= 6 && name.subrange(name.len() - 6, name.len() as int) == "VTable"@
}

/// The struct that a name stands for: the name without `VTable` at its end,
/// or the name itself.
pub open spec fn struct_name_of(name: Seq<char>) -> Seq<char> {
    if names_table(name) {
        name.subrange(0, name.len() - 6)
    } else {
        name
    }
}

/// Tells a table from an object by its name, and gives the name of the
/// object's struct: a table is called like the struct, with `VTable` at the
/// end.
pub fn split_vtable_name(name: &String) -> (res: (bool, String))
    ensures
        res.0 == names_table(name@),
        res.1@ == struct_name_of(name@),
{
    proof {
        reveal_strlit("VTable");
    }
    let text = name.as_str();
    let len = text.unicode_len();
    if len < 6 {
        return (false, name.clone());
    }
    let tail = String::from_str(text.substring_char(len - 6, len));
    if text_is(&tail, "VTable") {
        (true, String::from_str(text.substring_char(0, len - 6)))
    } else {
        (false, name.clone())
    }
}

/// A field that an attribute adds in front of the others.
#[derive(Clone, Debug, PartialEq, Eq)]
pub struct AddedField {
    pub name: String,
    pub ty: String,
}

/// The name of the added field: `base` in a table, `base_with_vtbl` in an
/// object with a base, `vtbl` in an object without.
pub open spec fn added_name_of(has_base: bool, is_vtable: bool) -> Seq<char> {
    if is_vtable {
        "base"@
    } else if has_base {
        "base_with_vtbl"@
    } else {
        "vtbl"@
    }
}

/// The type of the added field: the base, or the base's table in a table;
/// a pointer-sized integer in an object without base.
pub open spec fn added_type_of(base: Option<Seq<char>>, is_vtable: bool) -> Seq<char> {
    match base {
        Some(b) => if is_vtable {
            vtable_ident_of(b)
        } else {
            b
        },
        None => "usize"@,
    }
}

/// Whether a field is added: never to the table of a class without base,
/// and not where the first field has the name already.
pub open spec fn adds_field(
    first: Option<Option<Seq<char>>>,
    has_base: bool,
    is_vtable: bool,
) -> bool {
    !(is_vtable && !has_base) && first != Some(Some(added_name_of(has_base, is_vtable)))
}

/// The name of the first field, if there is a field and it has a name.
pub open spec fn first_name_of(fields: Seq<Option<String>>) -> Option<Option<Seq<char>>> {
    if fields.len() == 0 {
        None
    } else {
        Some(
            match fields[0] {
                Some(n) => Some(n@),
                None => None,
            },
        )
    }
}

/// The view of an optional text.
pub open spec fn text_view(text: Option<&String>) -> Option<Seq<char>> {
    match text {
        Some(t) => Some(t@),
        None => None,
    }
}

/// Decides which field goes in front of the fields of a struct: the table
/// pointer or the embedded base of an object, the embedded base table of a
/// table.
pub fn add_vtable_or_base_field(
    fields: &Vec<Option<String>>,
    base_name: Option<&String>,
    is_vtable: bool,
) -> (res: Option<AddedField>)
    ensures
        match res {
            Some(added) => adds_field(first_name_of(fields@), base_name is Some, is_vtable)
                && added.name@ == added_name_of(base_name is Some, is_vtable) && added.ty@
                == added_type_of(text_view(base_name), is_vtable),
            None => !adds_field(first_name_of(fields@), base_name is Some, is_vtable),
        },
{
    if is_vtable && base_name.is_none() {
        return None;
    }
    let ty = match base_name {
        Some(b) => if is_vtable {
            make_vtable_ident(b)
        } else {
            b.clone()
        },
        None => String::from_str("usize"),
    };
    let name = if is_vtable {
        String::from_str("base")
    } else if base_name.is_some() {
        String::from_str("base_with_vtbl")
    } else {
        String::from_str("vtbl")
    };
    if fields.len() > 0 {
        match &fields[0] {
            Some(first) => {
                if *first == name {
                    return None;
                }
            },
            None => {},
        }
    }
    Some(AddedField { name, ty })
}

/// Name of the template that forwards an interface for a type.
pub open spec fn virtuals_forward_of(name: Seq<char>) -> Seq<char> {
    "impl_"@ + name + "Virtuals_for"@
}

/// Name of the template that fills a table for a type.
pub open spec fn vtable_forward_of(name: Seq<char>) -> Seq<char> {
    "impl_"@ + name + "VTable_for"@
}

/// Name of the static table of a struct.
pub open spec fn vtable_constant_of(name: Seq<char>) -> Seq<char> {
    uppercase_of(name) + "_VTBL"@
}

/// Make the name of the template that forwards the interface of a struct.
pub fn make_virtuals_forward(name: &String) -> (res: String)
    ensures
        res@ == virtuals_forward_of(name@),
{
    let mut out = String::from_str("impl_");
    out.append(name.as_str());
    out.append("Virtuals_for");
    out
}

/// Make the name of the template that fills the table of a struct.
pub fn make_vtable_forward(name: &String) -> (res: String)
    ensures
        res@ == vtable_forward_of(name@),
{
    let mut out = String::from_str("impl_");
    out.append(name.as_str());
    out.append("VTable_for");
    out
}

/// Make the name of the static table of a struct.
pub fn make_vtable_constant(name: &String) -> (res: String)
    ensures
        res@ == vtable_constant_of(name@),
{
    let mut out = uppercase(name.as_str());
    out.append("_VTBL");
    out
}

/// A field of a hand-written table: its name, whether its type is a
/// function pointer, the calling convention that it names, and whether all
/// of the function's arguments are named.
#[derive(Clone, Debug, PartialEq, Eq)]
pub struct TableMember {
    pub name: Option<String>,
    pub is_function: bool,
    pub abi: Option<String>,
    pub args_named: bool,
}

/// A method of the interface: the field of the table that holds it, and its
/// calling convention.
#[derive(Clone, Debug, PartialEq, Eq)]
pub struct InterfaceMethod {
    pub field: usize,
    pub abi: String,
}

/// What is generated for a hand-written table.
#[derive(Clone, Debug, PartialEq, Eq)]
pub struct TraitPlan {
    /// The dispatch interface.
    pub trait_name: String,
    /// The interface of the base, which it extends.
    pub base_trait: Option<String>,
    /// The template that forwards the interface for a type.
    pub virtuals_forward: String,
    /// The same template of the base, which that one applies first.
    pub base_virtuals_forward: Option<String>,
    /// The template that fills the table for a type.
    pub vtable_forward: String,
    /// The same template of the base, which fills the embedded table.
    pub base_vtable_forward: Option<String>,
    /// The static table of the struct.
    pub constant: String,
    /// The methods, in field order.
    pub methods: Vec<InterfaceMethod>,
    /// Whether the interface of the base is forwarded for the struct.
    pub implement_base: bool,
    /// Whether the templates are exported.
    pub exported: bool,
}

/// Whether a member can be a method: it is a named function pointer with
/// named arguments.
pub open spec fn is_method(member: TableMember) -> bool {
    member.is_function && member.name is Some && member.args_named
}

/// Whether the members from `skip` up to `n` can all be methods.
pub open spec fn all_methods(members: Seq<TableMember>, skip: int, n: int) -> bool {
    forall|k: int| skip <= k < n ==> is_method(#[trigger] members[k])
}

/// The calling convention of a member: the one it names, or `C`.
pub open spec fn member_abi_of(member: TableMember) -> Seq<char> {
    match member.abi {
        Some(abi) => abi@,
        None => "C"@,
    }
}

/// How many fields stand before the methods: the embedded base table, where
/// the table has one as its first member.
pub open spec fn skipped_of(embedded: bool) -> int {
    if embedded {
        1
    } else {
        0
    }
}

/// The plan `plan` is what is generated for the table of the struct.
pub open spec fn is_trait_plan(
    members: Seq<TableMember>,
    embedded: bool,
    struct_name: Seq<char>,
    base: Option<Seq<char>>,
    no_base_trait_impl: bool,
    exported: bool,
    plan: TraitPlan,
) -> bool {
    let skip = skipped_of(embedded);
    &&& plan.trait_name@ == virtuals_of(struct_name)
    &&& plan.virtuals_forward@ == virtuals_forward_of(struct_name)
    &&& plan.vtable_forward@ == vtable_forward_of(struct_name)
    &&& plan.constant@ == vtable_constant_of(struct_name)
    &&& plan.exported == exported
    &&& plan.implement_base == (base is Some && !no_base_trait_impl)
    &&& match base {
        Some(b) => (plan.base_trait matches Some(t) && t@ == virtuals_of(b)) && (
        plan.base_virtuals_forward matches Some(v) && v@ == virtuals_forward_of(b)) && (
        plan.base_vtable_forward matches Some(f) && f@ == vtable_forward_of(b)),
        None => plan.base_trait is None && plan.base_virtuals_forward is None
            && plan.base_vtable_forward is None,
    }
    &&& plan.methods.len() == (if members.len() >= skip {
        members.len() - skip
    } else {
        0
    })
    &&& forall|k: int|
        0 <= k < plan.methods.len() ==> (#[trigger] plan.methods@[k]).field == k + skip
            && plan.methods@[k].abi@ == member_abi_of(members[k + skip])
}

/// Generates the dispatch interface of a hand-written table, with the
/// templates that forward it and fill the table, and the static table.
/// `embedded` says whether the first member is the embedded table of the
/// base; the members after it are the methods.
///
/// It fails at the first of those members that is no named function pointer
/// with named arguments.
pub fn gen_vtable_trait(
    members: &Vec<TableMember>,
    embedded: bool,
    struct_name: &String,
    base_name: Option<&String>,
    no_base_trait_impl: bool,
    exported: bool,
) -> (res: Result<TraitPlan, GenError>)
    ensures
        match res {
            Ok(plan) => all_methods(members@, skipped_of(embedded), members.len() as int)
                && is_trait_plan(
                members@,
                embedded,
                struct_name@,
                text_view(base_name),
                no_base_trait_impl,
                exported,
                plan,
            ),
            Err(GenError::MalformedDeclaration { virt }) => skipped_of(embedded) <= virt
                < members.len() && all_methods(members@, skipped_of(embedded), virt as int)
                && !is_method(members@[virt as int]),
            Err(_) => false,
        },
{
    let skip: usize = if embedded {
        1
    } else {
        0
    };
    let mut methods: Vec<InterfaceMethod> = Vec::new();
    let mut k: usize = skip;
    while k < members.len()
        invariant
            skip == skipped_of(embedded),
            skip <= k,
            k <= members.len() || k == skip,
            methods.len() == k - skip,
            all_methods(members@, skip as int, k as int),
            forall|j: int|
                0 <= j < methods.len() ==> (#[trigger] methods@[j]).field == j + skip
                    && methods@[j].abi@ == member_abi_of(members@[j + skip]),
        decreases members.len() - k,
    {
        let member = &members[k];
        if !(member.is_function && member.name.is_some() && member.args_named) {
            return Err(GenError::MalformedDeclaration { virt: k });
        }
        let abi = match &member.abi {
            Some(abi) => abi.clone(),
            None => String::from_str("C"),
        };
        methods.push(InterfaceMethod { field: k, abi });
        k += 1;
    }
    let (base_trait, base_virtuals_forward, base_vtable_forward) = match base_name {
        Some(b) => (Some(make_virtuals(b)), Some(make_virtuals_forward(b)), Some(
            make_vtable_forward(b),
        )),
        None => (None, None, None),
    };
    Ok(
        TraitPlan {
            trait_name: make_virtuals(struct_name),
            base_trait,
            virtuals_forward: make_virtuals_forward(struct_name),
            base_virtuals_forward,
            vtable_forward: make_vtable_forward(struct_name),
            base_vtable_forward,
            constant: make_vtable_constant(struct_name),
            methods,
            implement_base: base_name.is_some() && !no_base_trait_impl,
            exported,
        },
    )
}

/// The first `n` fields that get their default: all but the table pointer
/// `vtbl` and the embedded base `base_with_vtbl`.
pub open spec fn defaulted_of(fields: Seq<String>, n: int) -> Seq<usize>
    decreases n,
{
    if n <= 0 {
        Seq::empty()
    } else if fields[n - 1]@ == "vtbl"@ || fields[n - 1]@ == "base_with_vtbl"@ {
        defaulted_of(fields, n - 1)
    } else {
        defaulted_of(fields, n - 1).push((n - 1) as usize)
    }
}

/// The default constructor of an object with a hand-written table.
#[derive(Clone, Debug, PartialEq, Eq)]
pub struct DefaultVTablePlan {
    /// The table type.
    pub table: String,
    /// The static table that `default` hands to the constructor.
    pub constant: String,
    /// The base whose constructor takes the table pointer on; none where
    /// the object stores it itself.
    pub base: Option<String>,
    /// The fields that get their default value.
    pub defaulted: Vec<usize>,
}

/// Generates the default constructor of an object with a hand-written
/// table: the hidden constructor takes the table pointer and stores it, or
/// hands it to the constructor of the base, and gives every other field its
/// default; `default` supplies the struct's own static table.
pub fn default_vtable(struct_name: &String, base: Option<&String>, fields: &Vec<String>) -> (res: DefaultVTablePlan)
    ensures
        res.table@ == vtable_ident_of(struct_name@),
        res.constant@ == vtable_constant_of(struct_name@),
        match base {
            Some(b) => res.base matches Some(r) && r@ == b@,
            None => res.base is None,
        },
        res.defaulted@ == defaulted_of(fields@, fields.len() as int),
{
    let mut defaulted: Vec<usize> = Vec::new();
    let mut k: usize = 0;
    while k < fields.len()
        invariant
            k <= fields.len(),
            defaulted@ == defaulted_of(fields@, k as int),
        decreases fields.len() - k,
    {
        if !(text_is(&fields[k], "vtbl") || text_is(&fields[k], "base_with_vtbl")) {
            defaulted.push(k);
        }
        k += 1;
    }
    let base = match base {
        Some(b) => Some(b.clone()),
        None => None,
    };
    DefaultVTablePlan {
        table: make_vtable_ident(struct_name),
        constant: make_vtable_constant(struct_name),
        base,
        defaulted,
    }
}


/// What the table attribute makes of a struct.
#[derive(Clone, Debug, PartialEq, Eq)]
pub struct AttributePlan {
    /// Whether the struct is a table.
    pub is_vtable: bool,
    /// The name of the object's struct.
    pub struct_name: String,
    /// Whether the attribute for the C layout has to be added.
    pub add_repr_c: bool,
    /// The field that goes in front of the others.
    pub added: Option<AddedField>,
    /// The dispatch interface; for a table only.
    pub interface: Option<TraitPlan>,
}

/// The names of a list of members.
pub open spec fn member_names(members: Seq<TableMember>) -> Seq<Option<String>> {
    Seq::new(members.len(), |k: int| members[k].name)
}

/// Whether the table attribute adds a field in front of the members.
pub open spec fn attribute_adds(attr: GenVTableAttributes, ident: Seq<char>, members: Seq<TableMember>) -> bool {
    adds_field(first_name_of(member_names(members)), attr.base is Some, names_table(ident))
}

/// Whether the first member is the embedded table of the base already: the
/// struct has a base, and nothing is added.
pub open spec fn attribute_embedded(attr: GenVTableAttributes, ident: Seq<char>, members: Seq<TableMember>) -> bool {
    attr.base is Some && !attribute_adds(attr, ident, members)
}

/// Generates what the table attribute adds to a struct: the C layout, the
/// field in front, and, for a table, the dispatch interface of its members;
/// a first member that is the embedded table of the base is no method.
pub fn gen_vtable(
    attr: &GenVTableAttributes,
    ident: &String,
    members: &Vec<TableMember>,
    has_repr_c: bool,
    exported: bool,
) -> (res: Result<AttributePlan, GenError>)
    ensures
        match res {
            Ok(plan) => {
                let embedded = attribute_embedded(*attr, ident@, members@);
                &&& plan.is_vtable == names_table(ident@)
                &&& plan.struct_name@ == struct_name_of(ident@)
                &&& plan.add_repr_c == !has_repr_c
                &&& plan.added is Some == attribute_adds(*attr, ident@, members@)
                &&& plan.added matches Some(added) ==> added.name@ == added_name_of(
                    attr.base is Some,
                    plan.is_vtable,
                ) && added.ty@ == added_type_of(attributes_view(*attr).base, plan.is_vtable)
                &&& plan.interface is Some == plan.is_vtable
                &&& plan.interface matches Some(i) ==> all_methods(
                    members@,
                    skipped_of(embedded),
                    members.len() as int,
                ) && is_trait_plan(
                    members@,
                    embedded,
                    plan.struct_name@,
                    attributes_view(*attr).base,
                    attr.no_base_trait_impl,
                    exported,
                    i,
                )
            },
            Err(GenError::MalformedDeclaration { virt }) => {
                let skip = skipped_of(attribute_embedded(*attr, ident@, members@));
                names_table(ident@) && skip <= virt < members.len() && all_methods(
                    members@,
                    skip,
                    virt as int,
                ) && !is_method(members@[virt as int])
            },
            Err(_) => false,
        },
{
    let (is_vtable, struct_name) = split_vtable_name(ident);
    let mut names: Vec<Option<String>> = Vec::new();
    let mut k: usize = 0;
    while k < members.len()
        invariant
            k <= members.len(),
            names.len() == k,
            forall|j: int|
                0 <= j < k ==> (match (#[trigger] names@[j], members@[j].name) {
                    (Some(a), Some(b)) => a@ == b@,
                    (None, None) => true,
                    _ => false,
                }),
        decreases members.len() - k,
    {
        let name = match &members[k].name {
            Some(n) => Some(n.clone()),
            None => None,
        };
        names.push(name);
        k += 1;
    }
    proof {
        assert(first_name_of(names@) == first_name_of(member_names(members@))) by {
            if members.len() > 0 {
                let _ = names@[0];
                assert(member_names(members@)[0] == members@[0].name);
            }
        }
    }
    let added = add_vtable_or_base_field(&names, attr.base.as_ref(), is_vtable);
    let interface = if is_vtable {
        let embedded = attr.base.is_some() && added.is_none();
        match gen_vtable_trait(
            members,
            embedded,
            &struct_name,
            attr.base.as_ref(),
            attr.no_base_trait_impl,
            exported,
        ) {
            Ok(plan) => Some(plan),
            Err(e) => {
                return Err(e);
            },
        }
    } else {
        None
    };
    Ok(AttributePlan { is_vtable, struct_name, add_repr_c: !has_repr_c, added, interface })
}

/// One field of a struct expression in `new`: its name, how it is
/// initialized, and, for a call of a path, the last segment of the callee.
#[derive(Clone, Debug, PartialEq, Eq)]
pub struct MemberInit {
    pub name: Option<String>,
    pub init: Init,
    pub callee: Option<String>,
}

/// A struct expression: the identifier of its path, where the path is one,
/// and its fields.
#[derive(Clone, Debug, PartialEq, Eq)]
pub struct StructExpr {
    pub target: Option<String>,
    pub fields: Vec<MemberInit>,
}

/// A statement of `new`, as far as the rewriter looks at it.
#[derive(Clone, Debug, PartialEq, Eq)]
pub enum NewStatement {
    /// A local variable: its name, where its pattern is one, and its
    /// initializer, where that is a struct expression.
    Local { name: Option<String>, init: Option<StructExpr> },
    /// A struct expression.
    Struct(StructExpr),
    /// A path as an expression: its identifier, where it is one.
    Path { name: Option<String> },
    /// Anything else.
    Other,
}

/// The function `new` as the user wrote it, with the type that the
/// attribute names for the object and the identifier of its return type.
#[derive(Clone, Debug, PartialEq, Eq)]
pub struct NewFn {
    pub name: String,
    pub self_type: Option<String>,
    pub returns: Option<String>,
    pub has_receiver: bool,
    pub params: Vec<Param>,
    pub body: Vec<NewStatement>,
}

/// The change to the struct expression that builds the object.
#[derive(Clone, Copy, Debug, PartialEq, Eq, Structural)]
pub enum NewEdit {
    /// The call `Base::new(..)` in `field` becomes a call of the hidden
    /// constructor of the base, with the table pointer as first argument.
    RewriteBaseCall { stmt: usize, field: usize },
    /// The base gets its default, made with the table pointer, as the first
    /// field.
    InsertBaseDefault { stmt: usize },
    /// The table pointer is stored as the first field.
    InsertTablePointer { stmt: usize },
}

/// What the attribute makes of `new`: the hidden constructor takes the
/// table pointer first and has the changed body; `new` calls it with the
/// struct's static table.
#[derive(Clone, Debug, PartialEq, Eq)]
pub struct NewPlan {
    pub constant: String,
    pub table: String,
    pub edit: NewEdit,
}

/// The struct that `new` builds: the type that the attribute names, else
/// the return type, unless that is `Self`.
pub open spec fn built_struct_of(f: NewFn) -> Option<Seq<char>> {
    match f.self_type {
        Some(t) => Some(t@),
        None => match f.returns {
            Some(r) => if r@ == "Self"@ {
                None
            } else {
                Some(r@)
            },
            None => None,
        },
    }
}

/// Whether a statement defines the local `name` by a struct expression of
/// the built struct.
pub open spec fn defines(stmt: NewStatement, name: Seq<char>, built: Seq<char>) -> bool {
    stmt matches NewStatement::Local { name: Some(n), init: Some(e) } && n@ == name && (
    e.target matches Some(t) && (t@ == "Self"@ || t@ == built))
}

/// The first of the first `n` statements that defines the local.
pub open spec fn first_defining(body: Seq<NewStatement>, name: Seq<char>, built: Seq<char>, n: int) -> Option<
    int,
>
    decreases n,
{
    if n <= 0 {
        None
    } else {
        match first_defining(body, name, built, n - 1) {
            Some(i) => Some(i),
            None => if defines(body[n - 1], name, built) {
                Some(n - 1)
            } else {
                None
            },
        }
    }
}

/// A definition found among the first `n` statements is the one found among
/// more, and lies among them.
pub proof fn lemma_first_defining(body: Seq<NewStatement>, name: Seq<char>, built: Seq<char>, n: int, m: int)
    requires
        0 <= n <= m <= body.len(),
    ensures
        first_defining(body, name, built, n) matches Some(i) ==> 0 <= i < n && defines(
            body[i],
            name,
            built,
        ) && first_defining(body, name, built, m) == Some(i),
    decreases m,
{
    if n > 0 {
        lemma_first_defining(body, name, built, n - 1, n - 1);
    }
    if m > n {
        lemma_first_defining(body, name, built, n, m - 1);
    }
}

/// The statement that builds the object: the last one, where it is a struct
/// expression; where it is the name of a local, the first statement that
/// defines that local by a struct expression of the built struct.
pub open spec fn building_stmt_of(body: Seq<NewStatement>, built: Seq<char>) -> Option<int> {
    if body.len() == 0 {
        None
    } else {
        match body[body.len() - 1] {
            NewStatement::Struct(_) => Some(body.len() - 1),
            NewStatement::Path { name: Some(n) } => first_defining(
                body,
                n@,
                built,
                body.len() as int,
            ),
            _ => None,
        }
    }
}

/// The struct expression of a statement that builds the object.
pub open spec fn struct_expr_of(stmt: NewStatement) -> StructExpr {
    match stmt {
        NewStatement::Struct(e) => e,
        NewStatement::Local { name, init } => init->Some_0,
        _ => arbitrary(),
    }
}

/// What looking for a field finds.
pub enum Scan {
    /// No field has the name.
    Clear,
    /// The field at this place has the name.
    Found(int),
    /// Before any field with the name stands one without a name.
    Unnamed(int),
}

/// Looks through the first `n` fields for the one called `wanted`.
pub open spec fn scan_of(fields: Seq<MemberInit>, wanted: Seq<char>, n: int) -> Scan
    decreases n,
{
    if n <= 0 {
        Scan::Clear
    } else {
        match scan_of(fields, wanted, n - 1) {
            Scan::Clear => match fields[n - 1].name {
                None => Scan::Unnamed(n - 1),
                Some(x) => if x@ == wanted {
                    Scan::Found(n - 1)
                } else {
                    Scan::Clear
                },
            },
            other => other,
        }
    }
}

/// What was found among the first `n` fields is found among more.
pub proof fn lemma_scan_stays(fields: Seq<MemberInit>, wanted: Seq<char>, n: int, m: int)
    requires
        0 <= n <= m <= fields.len(),
        !(scan_of(fields, wanted, n) is Clear),
    ensures
        scan_of(fields, wanted, m) == scan_of(fields, wanted, n),
    decreases m,
{
    if m > n {
        lemma_scan_stays(fields, wanted, n, m - 1);
    }
}

/// The change to the struct expression `e` in the statement `stmt`.
pub open spec fn new_edit_of(e: StructExpr, has_base: bool, stmt: int) -> Result<NewEdit, GenError> {
    if has_base {
        match scan_of(e.fields@, "base_with_vtbl"@, e.fields.len() as int) {
            Scan::Unnamed(_) => Err(GenError::MalformedConstructor),
            Scan::Clear => Ok(NewEdit::InsertBaseDefault { stmt: stmt as usize }),
            Scan::Found(i) => match e.fields@[i].init {
                Init::Other => Err(GenError::NonCallBaseInitializer { base: 0 }),
                Init::OtherCall => Err(GenError::UnresolvableConstructorPath { base: 0 }),
                Init::PathCall => if e.fields@[i].callee matches Some(c) && c@ == "new"@ {
                    Ok(NewEdit::RewriteBaseCall { stmt: stmt as usize, field: i as usize })
                } else {
                    Err(GenError::UnresolvableConstructorPath { base: 0 })
                },
            },
        }
    } else {
        match scan_of(e.fields@, "vtbl"@, e.fields.len() as int) {
            Scan::Clear => Ok(NewEdit::InsertTablePointer { stmt: stmt as usize }),
            _ => Err(GenError::MalformedConstructor),
        }
    }
}

/// Whether `new` takes named parameters only, and no receiver.
pub open spec fn takes_named(f: NewFn) -> bool {
    !f.has_receiver && forall|k: int| 0 <= k < f.params.len() ==> (#[trigger] f.params@[k]).name is Some
}

/// What the attribute makes of `new`: the checks run in order (the built
/// struct, the name, the statement that builds the object, the fields of
/// its struct expression, the parameters) and the first failure ends it.
pub open spec fn new_edit(f: NewFn, has_base: bool) -> Result<NewEdit, GenError> {
    match built_struct_of(f) {
        None => Err(GenError::MalformedConstructor),
        Some(built) => if f.name@ != "new"@ {
            Err(GenError::MalformedConstructor)
        } else {
            match building_stmt_of(f.body@, built) {
                None => Err(GenError::NoInstantiationFound),
                Some(s) => match new_edit_of(struct_expr_of(f.body@[s]), has_base, s) {
                    Err(e) => Err(e),
                    Ok(edit) => if takes_named(f) {
                        Ok(edit)
                    } else {
                        Err(GenError::MalformedConstructor)
                    },
                },
            }
        },
    }
}

/// The result of a scan, with positions as machine integers.
enum Scanned {
    Clear,
    Found(usize),
    Unnamed,
}

/// Looks through the fields for the one called `wanted`.
fn scan_fields(fields: &Vec<MemberInit>, wanted: &str) -> (res: Scanned)
    ensures
        match res {
            Scanned::Clear => scan_of(fields@, wanted@, fields.len() as int) is Clear,
            Scanned::Found(i) => scan_of(fields@, wanted@, fields.len() as int) == Scan::Found(
                i as int,
            ) && i < fields.len(),
            Scanned::Unnamed => scan_of(fields@, wanted@, fields.len() as int) is Unnamed,
        },
{
    let mut k: usize = 0;
    while k < fields.len()
        invariant
            k <= fields.len(),
            scan_of(fields@, wanted@, k as int) is Clear,
        decreases fields.len() - k,
    {
        match &fields[k].name {
            None => {
                proof {
                    lemma_scan_stays(fields@, wanted@, k as int + 1, fields.len() as int);
                }
                return Scanned::Unnamed;
            },
            Some(name) => {
                if text_is(name, wanted) {
                    proof {
                        lemma_scan_stays(fields@, wanted@, k as int + 1, fields.len() as int);
                    }
                    return Scanned::Found(k);
                }
            },
        }
        k += 1;
    }
    Scanned::Clear
}

/// Decides the change to one struct expression.
fn edit_struct(e: &StructExpr, has_base: bool, stmt: usize) -> (res: Result<NewEdit, GenError>)
    ensures
        res == new_edit_of(*e, has_base, stmt as int),
{
    if has_base {
        match scan_fields(&e.fields, "base_with_vtbl") {
            Scanned::Unnamed => Err(GenError::MalformedConstructor),
            Scanned::Clear => Ok(NewEdit::InsertBaseDefault { stmt }),
            Scanned::Found(i) => match e.fields[i].init {
                Init::Other => Err(GenError::NonCallBaseInitializer { base: 0 }),
                Init::OtherCall => Err(GenError::UnresolvableConstructorPath { base: 0 }),
                Init::PathCall => {
                    let is_new = match &e.fields[i].callee {
                        Some(c) => text_is(c, "new"),
                        None => false,
                    };
                    if is_new {
                        Ok(NewEdit::RewriteBaseCall { stmt, field: i })
                    } else {
                        Err(GenError::UnresolvableConstructorPath { base: 0 })
                    }
                },
            },
        }
    } else {
        match scan_fields(&e.fields, "vtbl") {
            Scanned::Clear => Ok(NewEdit::InsertTablePointer { stmt }),
            _ => Err(GenError::MalformedConstructor),
        }
    }
}

/// Whether a statement defines the local `name` by a struct expression of
/// the built struct.
fn is_defining(stmt: &NewStatement, name: &String, built: &String) -> (res: bool)
    ensures
        res == defines(*stmt, name@, built@),
{
    match stmt {
        NewStatement::Local { name: Some(n), init: Some(e) } => {
            if *n == *name {
                match &e.target {
                    Some(t) => text_is(t, "Self") || *t == *built,
                    None => false,
                }
            } else {
                false
            }
        },
        _ => false,
    }
}

/// Finds the statement that builds the object.
fn find_building_stmt(body: &Vec<NewStatement>, built: &String) -> (res: Option<usize>)
    ensures
        match res {
            Some(s) => building_stmt_of(body@, built@) == Some(s as int) && s < body.len() && (
            body@[s as int] is Struct || (body@[s as int] matches NewStatement::Local {
                name,
                init,
            } && init is Some)),
            None => building_stmt_of(body@, built@) is None,
        },
{
    if body.len() == 0 {
        return None;
    }
    let last = body.len() - 1;
    match &body[last] {
        NewStatement::Struct(_) => Some(last),
        NewStatement::Path { name: Some(n) } => {
            let mut k: usize = 0;
            while k < body.len()
                invariant
                    body.len() > 0,
                    body@[body.len() - 1] matches NewStatement::Path { name: Some(x) } && x == n,
                    k <= body.len(),
                    first_defining(body@, n@, built@, k as int) is None,
                decreases body.len() - k,
            {
                if is_defining(&body[k], n, built) {
                    proof {
                        lemma_first_defining(body@, n@, built@, k as int + 1, body.len() as int);
                    }
                    return Some(k);
                }
                k += 1;
            }
            None
        },
        _ => None,
    }
}

/// Whether every parameter has a name.
fn all_params_named(params: &Vec<Param>) -> (res: bool)
    ensures
        res == forall|k: int| 0 <= k < params.len() ==> (#[trigger] params@[k]).name is Some,
{
    let mut k: usize = 0;
    while k < params.len()
        invariant
            k <= params.len(),
            forall|j: int| 0 <= j < k ==> (#[trigger] params@[j]).name is Some,
        decreases params.len() - k,
    {
        if params[k].name.is_none() {
            return false;
        }
        k += 1;
    }
    true
}

/// Sets the table pointer in `new` and lets the constructors of derived
/// structs hand theirs through: decides the change to the struct expression
/// that builds the object, and names the static table that `new` supplies.
///
/// It fails where `new` has not the shape that this asks for, where no
/// statement builds the object, and where the base is constructed by
/// anything but a call of its `new`.
pub fn new_with_vtable(f: &NewFn, base: Option<&String>) -> (res: Result<NewPlan, GenError>)
    ensures
        match new_edit(*f, base is Some) {
            Err(e) => res == Err::<NewPlan, GenError>(e),
            Ok(edit) => res matches Ok(plan) && plan.edit == edit && plan.constant@
                == vtable_constant_of(built_struct_of(*f)->Some_0) && plan.table@
                == vtable_ident_of(built_struct_of(*f)->Some_0),
        },
{
    let built: String = match &f.self_type {
        Some(t) => t.clone(),
        None => match &f.returns {
            Some(r) => {
                if text_is(r, "Self") {
                    return Err(GenError::MalformedConstructor);
                }
                r.clone()
            },
            None => {
                return Err(GenError::MalformedConstructor);
            },
        },
    };
    if !text_is(&f.name, "new") {
        return Err(GenError::MalformedConstructor);
    }
    let s = match find_building_stmt(&f.body, &built) {
        Some(s) => s,
        None => {
            return Err(GenError::NoInstantiationFound);
        },
    };
    let edit = match &f.body[s] {
        NewStatement::Struct(e) => edit_struct(e, base.is_some(), s),
        NewStatement::Local { name: _, init: Some(e) } => edit_struct(e, base.is_some(), s),
        _ => Err(GenError::NoInstantiationFound),
    };
    let edit = match edit {
        Ok(edit) => edit,
        Err(e) => {
            return Err(e);
        },
    };
    if f.has_receiver || !all_params_named(&f.params) {
        return Err(GenError::MalformedConstructor);
    }
    Ok(
        NewPlan {
            constant: make_vtable_constant(&built),
            table: make_vtable_ident(&built),
            edit,
        },
    )
}

} // verus!
