//! The class hierarchy: classes registered bases first, the tables that the
//! population templates build for an implementor, and the table that every
//! part of a constructed object points to.

use vstd::prelude::*;
use crate::bases::{
    all_added_of, collect_added_bases, path_of, resolve, valid_ref, BaseRef, SecondaryBase,
};
use crate::ctor::{handed_args, CallArg};
use crate::decl::{claims_of, ItemClass, GenError};
use crate::slots::{
    claim_of, claims_fit, distinct_claims, sort_virtuals, table_of, Slot, SlotError,
};

verus! {

/// A static table: the one that the class `owner` holds for the class `base`.
/// Every function pointer in it is taken from `owner`'s implementations.
#[derive(Clone, Copy, Debug, PartialEq, Eq, Structural)]
pub struct TableRef {
    pub owner: usize,
    pub base: usize,
}

/// What a position of a populated table holds.
#[derive(Clone, Copy, Debug, PartialEq, Eq, Structural)]
pub enum Binding {
    /// The implementation by `implementor` of the virtual `virt` of the
    /// dispatch interface of the class `interface`.
    Bound { implementor: usize, interface: usize, virt: usize },
    /// The stub of a placeholder: calling it fails, it never returns.
    Failing,
}

/// A registered class: its name, its slots, and the classes of its declared
/// bases and of the bases that the additional-bases directive adds.
#[derive(Clone, Debug, PartialEq, Eq)]
pub struct ClassEntry {
    pub ident: String,
    pub slots: Vec<Slot>,
    pub bases: Vec<usize>,
    pub added: Vec<usize>,
    /// The number of function pointers in the class's table, the embedded
    /// tables of its primary chain included.
    pub table_len: usize,
}

/// The registered classes. Every class stands after its bases.
#[derive(Clone, Debug, PartialEq, Eq)]
pub struct Hierarchy {
    pub classes: Vec<ClassEntry>,
}

/// The class of the primary base of the class `x`, where it has one.
pub open spec fn primary_of(classes: Seq<ClassEntry>, x: int) -> Option<int> {
    if 0 <= x < classes.len() && classes[x].bases.len() > 0 {
        Some(classes[x].bases@[0] as int)
    } else {
        None
    }
}

/// The number of function pointers in the table of the class `x`: those of
/// the table of its primary base, which is embedded first, and one per slot
/// of its own.
pub open spec fn table_len_of(classes: Seq<ClassEntry>, x: int) -> int
    decreases x,
{
    if x < 0 || x >= classes.len() {
        0
    } else {
        (match primary_of(classes, x) {
            Some(p) => if 0 <= p < x {
                table_len_of(classes, p)
            } else {
                0
            },
            None => 0,
        }) + classes[x].slots.len()
    }
}

/// A table holds at least the slots of its own class.
pub proof fn lemma_table_start(classes: Seq<ClassEntry>, x: int)
    requires
        0 <= x < classes.len(),
    ensures
        0 <= table_len_of(classes, x) - classes[x].slots.len(),
    decreases x,
{
    match primary_of(classes, x) {
        Some(p) => {
            if 0 <= p < x {
                lemma_table_start(classes, p);
            }
        },
        None => {},
    }
}

/// Where the own slots of the class `x` start in its table.
pub open spec fn table_start_of(classes: Seq<ClassEntry>, x: int) -> int {
    table_len_of(classes, x) - classes[x].slots.len()
}

/// The class at `i` refers to earlier classes only, and knows the length of
/// its table.
pub open spec fn entry_wf(classes: Seq<ClassEntry>, i: int) -> bool {
    &&& forall|k: int| 0 <= k < classes[i].bases.len() ==> (#[trigger] classes[i].bases@[k]) < i
    &&& forall|k: int| 0 <= k < classes[i].added.len() ==> (#[trigger] classes[i].added@[k]) < i
    &&& classes[i].table_len == table_len_of(classes, i)
}

/// Every class of the list is well formed.
pub open spec fn classes_wf(classes: Seq<ClassEntry>) -> bool {
    forall|i: int| 0 <= i < classes.len() ==> #[trigger] entry_wf(classes, i)
}

/// The first of the first `n` classes that is called `wanted`.
pub open spec fn first_class(classes: Seq<ClassEntry>, wanted: Seq<char>, n: int) -> Option<int>
    decreases n,
{
    if n <= 0 {
        None
    } else {
        match first_class(classes, wanted, n - 1) {
            Some(i) => Some(i),
            None => if classes[n - 1].ident@ == wanted {
                Some(n - 1)
            } else {
                None
            },
        }
    }
}

/// A class found among the first `n` is the one found among more, and lies
/// among them.
pub proof fn lemma_first_class(classes: Seq<ClassEntry>, wanted: Seq<char>, n: int, m: int)
    requires
        0 <= n <= m <= classes.len(),
    ensures
        first_class(classes, wanted, n) matches Some(i) ==> 0 <= i < n && first_class(
            classes,
            wanted,
            m,
        ) == Some(i),
    decreases m,
{
    if n > 0 {
        lemma_first_class(classes, wanted, n - 1, n - 1);
    }
    if m > n {
        lemma_first_class(classes, wanted, n, m - 1);
    }
}

/// What the table of the class `x`, populated for `implementor`, holds at
/// the position `idx`: the slots of the root of the primary chain come
/// first, those of `x` itself last.
pub open spec fn table_entry_of(
    classes: Seq<ClassEntry>,
    x: int,
    implementor: int,
    idx: int,
) -> Option<Binding>
    decreases x,
{
    if x < 0 || x >= classes.len() || idx < 0 || idx >= table_len_of(classes, x) {
        None
    } else if idx >= table_start_of(classes, x) {
        Some(
            match classes[x].slots@[idx - table_start_of(classes, x)] {
                Slot::Method(virt) => Binding::Bound {
                    implementor: implementor as usize,
                    interface: x as usize,
                    virt,
                },
                Slot::Placeholder => Binding::Failing,
            },
        )
    } else {
        match primary_of(classes, x) {
            Some(p) => if 0 <= p < x {
                table_entry_of(classes, p, implementor, idx)
            } else {
                None
            },
            None => None,
        }
    }
}

/// The first of the first `n` slots that holds the virtual `virt`.
pub open spec fn slot_index_of(slots: Seq<Slot>, virt: usize, n: int) -> Option<int>
    decreases n,
{
    if n <= 0 {
        None
    } else {
        match slot_index_of(slots, virt, n - 1) {
            Some(s) => Some(s),
            None => if slots[n - 1] == Slot::Method(virt) {
                Some(n - 1)
            } else {
                None
            },
        }
    }
}

/// The slot found holds the virtual, and lies among the slots.
pub proof fn lemma_slot_index(slots: Seq<Slot>, virt: usize, n: int, m: int)
    requires
        0 <= n <= m <= slots.len(),
    ensures
        slot_index_of(slots, virt, n) matches Some(s) ==> 0 <= s < n && slots[s] == Slot::Method(
            virt,
        ) && slot_index_of(slots, virt, m) == Some(s),
    decreases m,
{
    if n > 0 {
        lemma_slot_index(slots, virt, n - 1, n - 1);
    }
    if m > n {
        lemma_slot_index(slots, virt, n, m - 1);
    }
}

/// Where a part of an object stands while it is constructed: its class, the
/// table that its constructor was handed, if any, and the tables handed to
/// it for its threaded bases.
pub struct Part {
    pub class: int,
    pub table: Option<TableRef>,
    pub threaded: Seq<TableRef>,
}

/// The part with which the construction of an object of the class `c`
/// starts: the public constructor supplies the class's own static table, and
/// the class's static for each declared secondary base and each added base.
pub open spec fn whole_of(classes: Seq<ClassEntry>, c: int) -> Part {
    let e = classes[c];
    Part {
        class: c,
        table: Some(TableRef { owner: c as usize, base: c as usize }),
        threaded: Seq::new(
            (if e.bases.len() > 0 {
                e.bases.len() - 1
            } else {
                0
            }) as nat,
            |k: int| TableRef { owner: c as usize, base: e.bases@[k + 1] },
        ) + Seq::new(
            e.added.len() as nat,
            |k: int| TableRef { owner: c as usize, base: e.added@[k] },
        ),
    }
}

/// The part that the constructor of `part` makes of its base at `k`: the
/// primary base goes on with the same table, and is handed the class's own
/// statics for the added bases; another base gets the table that the
/// constructor took for it, and nothing more.
pub open spec fn step_of(classes: Seq<ClassEntry>, part: Part, k: int) -> Option<Part> {
    if part.class < 0 || part.class >= classes.len() || k < 0 || k >= classes[part.class].bases.len() {
        None
    } else {
        let e = classes[part.class];
        if k == 0 {
            Some(
                Part {
                    class: e.bases@[0] as int,
                    table: part.table,
                    threaded: Seq::new(
                        e.added.len() as nat,
                        |j: int| TableRef { owner: part.class as usize, base: e.added@[j] },
                    ),
                },
            )
        } else {
            Some(
                Part {
                    class: e.bases@[k] as int,
                    table: if k - 1 < part.threaded.len() {
                        Some(part.threaded[k - 1])
                    } else {
                        None
                    },
                    threaded: Seq::empty(),
                },
            )
        }
    }
}

/// The part reached from `part` by the first `n` steps of `path`, each step
/// the position of a base.
pub open spec fn walk_of(classes: Seq<ClassEntry>, part: Part, path: Seq<usize>, n: int) -> Option<Part>
    decreases n,
{
    if n <= 0 {
        Some(part)
    } else {
        match walk_of(classes, part, path, n - 1) {
            Some(p) => step_of(classes, p, path[n - 1] as int),
            None => None,
        }
    }
}

/// The table that the root of the primary chain of `part` stores: a class
/// without bases stores the table it was handed; any other hands it on to
/// its primary base.
pub open spec fn stored_table_of(classes: Seq<ClassEntry>, class: int, table: Option<TableRef>) -> Option<
    TableRef,
>
    decreases class,
{
    if class < 0 || class >= classes.len() {
        None
    } else {
        match primary_of(classes, class) {
            None => table,
            Some(p) => if 0 <= p < class {
                stored_table_of(classes, p, table)
            } else {
                None
            },
        }
    }
}

/// Which implementation a virtual call reaches: the object is of the class
/// `dynamic`, made by its public constructor; the call goes through the part
/// reached by `path` and names the virtual `virt` of that part's class.
///
/// The call reads the table pointer stored at the root of the part's primary
/// chain, takes that table as one of the part's class, and calls what stands
/// at the virtual's slot.
pub open spec fn dispatch_of(
    classes: Seq<ClassEntry>,
    dynamic: int,
    path: Seq<usize>,
    virt: usize,
) -> Option<Binding> {
    if dynamic < 0 || dynamic >= classes.len() {
        None
    } else {
        match walk_of(classes, whole_of(classes, dynamic), path, path.len() as int) {
            None => None,
            Some(part) => match stored_table_of(classes, part.class, part.table) {
                None => None,
                Some(table) => match slot_index_of(
                    classes[part.class].slots@,
                    virt,
                    classes[part.class].slots.len() as int,
                ) {
                    None => None,
                    Some(s) => table_entry_of(
                        classes,
                        table.base as int,
                        table.owner as int,
                        table_start_of(classes, part.class) + s,
                    ),
                },
            },
        }
    }
}

impl Hierarchy {
    /// The hierarchy is well formed.
    pub open spec fn wf(&self) -> bool {
        classes_wf(self.classes@)
    }

    /// A hierarchy without classes.
    pub fn new() -> (res: Hierarchy)
        ensures
            res.wf(),
            res.classes@.len() == 0,
    {
        Hierarchy { classes: Vec::new() }
    }

    /// The number of registered classes.
    pub fn len(&self) -> (res: usize)
        ensures
            res == self.classes@.len(),
    {
        self.classes.len()
    }

    /// Finds the class of a name: the first one registered under it.
    pub fn find_class(&self, ident: &String) -> (res: Option<usize>)
        ensures
            match res {
                Some(i) => first_class(self.classes@, ident@, self.classes.len() as int) == Some(
                    i as int,
                ) && i < self.classes.len(),
                None => first_class(self.classes@, ident@, self.classes.len() as int) is None,
            },
    {
        let mut i: usize = 0;
        while i < self.classes.len()
            invariant
                i <= self.classes.len(),
                first_class(self.classes@, ident@, i as int) is None,
            decreases self.classes.len() - i,
        {
            if *(&self.classes[i].ident) == *ident {
                proof {
                    lemma_first_class(
                        self.classes@,
                        ident@,
                        i as int + 1,
                        self.classes.len() as int,
                    );
                }
                return Some(i);
            }
            i += 1;
        }
        None
    }

    /// The number of function pointers in the table of a class.
    pub fn vtable_len(&self, class: usize) -> (res: usize)
        requires
            self.wf(),
            class < self.classes@.len(),
        ensures
            res == table_len_of(self.classes@, class as int),
    {
        proof {
            assert(entry_wf(self.classes@, class as int));
        }
        self.classes[class].table_len
    }

    /// What the table of `class`, populated for `implementor`, holds at the
    /// position `idx`; nothing where the table has no such position.
    pub fn table_entry(&self, class: usize, implementor: usize, idx: usize) -> (res: Option<Binding>)
        requires
            self.wf(),
            class < self.classes@.len(),
        ensures
            res == table_entry_of(self.classes@, class as int, implementor as int, idx as int),
    {
        proof {
            assert(entry_wf(self.classes@, class as int));
        }
        if idx >= self.classes[class].table_len {
            return None;
        }
        let mut x: usize = class;
        loop
            invariant
                self.wf(),
                x < self.classes@.len(),
                idx < table_len_of(self.classes@, x as int),
                table_entry_of(self.classes@, class as int, implementor as int, idx as int)
                    == table_entry_of(self.classes@, x as int, implementor as int, idx as int),
            decreases x,
        {
            proof {
                assert(entry_wf(self.classes@, x as int));
                lemma_table_start(self.classes@, x as int);
            }
            let e = &self.classes[x];
            let start: usize = e.table_len - e.slots.len();
            if idx >= start {
                return Some(
                    match e.slots[idx - start] {
                        Slot::Method(virt) => Binding::Bound { implementor, interface: x, virt },
                        Slot::Placeholder => Binding::Failing,
                    },
                );
            }
            proof {
                assert(e.bases.len() > 0);
                assert(e.bases@[0] < x);
            }
            x = e.bases[0];
        }
    }

    /// Populates the table of `class` for `implementor`: one binding per
    /// position, in layout order.
    pub fn populate(&self, class: usize, implementor: usize) -> (res: Vec<Binding>)
        requires
            self.wf(),
            class < self.classes@.len(),
        ensures
            res.len() == table_len_of(self.classes@, class as int),
            forall|i: int|
                0 <= i < res.len() ==> Some(#[trigger] res@[i]) == table_entry_of(
                    self.classes@,
                    class as int,
                    implementor as int,
                    i,
                ),
    {
        let n = self.vtable_len(class);
        let mut out: Vec<Binding> = Vec::new();
        let mut i: usize = 0;
        while i < n
            invariant
                self.wf(),
                class < self.classes@.len(),
                n == table_len_of(self.classes@, class as int),
                i <= n,
                out.len() == i,
                forall|k: int|
                    0 <= k < i ==> Some(#[trigger] out@[k]) == table_entry_of(
                        self.classes@,
                        class as int,
                        implementor as int,
                        k,
                    ),
            decreases n - i,
        {
            proof {
                lemma_table_entry_some(self.classes@, class as int, implementor as int, i as int);
            }
            match self.table_entry(class, implementor, i) {
                Some(b) => {
                    out.push(b);
                },
                None => {},
            }
            i += 1;
        }
        out
    }

    /// Registers a class, after its bases.
    ///
    /// It fails, and leaves the hierarchy as it is, where the class has
    /// neither bases nor virtuals, where its slots cannot be allocated, where
    /// a base or an added base names no registered class, or where its table
    /// would be too long. Otherwise the class is appended and its position
    /// returned.
    pub fn add_class(&mut self, def: &ItemClass, additional: &Vec<SecondaryBase>) -> (res: Result<
        usize,
        GenError,
    >)
        requires
            old(self).wf(),
        ensures
            final(self).wf(),
            match res {
                Ok(i) => {
                    let e = final(self).classes@[i as int];
                    &&& i == old(self).classes@.len()
                    &&& final(self).classes@ == old(self).classes@.push(e)
                    &&& registers(old(self).classes@, def, additional@, e)
                },
                Err(e) => final(self).classes@ == old(self).classes@ && registration_fails(
                    old(self).classes@,
                    def,
                    additional@,
                    e,
                ),
            },
    {
        if def.bases.bases.len() == 0 && def.body.virtuals.len() == 0 {
            return Err(GenError::NonVirtualBaseUnsupported);
        }
        let slots = match sort_virtuals(def) {
            Ok(slots) => slots,
            Err(SlotError::Collision { holder, claimant, slot }) => {
                return Err(GenError::VirtualSlotCollision { holder, claimant, slot });
            },
            Err(SlotError::TooLarge { claimant }) => {
                return Err(GenError::VirtualSlotTooLarge { claimant });
            },
        };
        let mut bases: Vec<usize> = Vec::new();
        let mut k: usize = 0;
        while k < def.bases.bases.len()
            invariant
                self.wf(),
                self.classes@ == old(self).classes@,
                !(def.bases.bases.len() == 0 && def.body.virtuals.len() == 0),
                distinct_claims(claims_of(def.body.virtuals@), def.body.virtuals.len() as int),
                claims_fit(claims_of(def.body.virtuals@), def.body.virtuals.len() as int),
                k <= def.bases.bases.len(),
                bases.len() == k,
                forall|j: int|
                    0 <= j < k ==> first_class(
                        self.classes@,
                        def.bases.bases@[j].ident@,
                        self.classes.len() as int,
                    ) == Some((#[trigger] bases@[j]) as int) && bases@[j] < self.classes.len(),
            decreases def.bases.bases.len() - k,
        {
            match self.find_class(&def.bases.bases[k].ident) {
                Some(i) => {
                    bases.push(i);
                },
                None => {
                    proof {
                        assert forall|j: int| 0 <= j < k implies (#[trigger] first_class(
                            self.classes@,
                            def.bases.bases@[j].ident@,
                            self.classes.len() as int,
                        )) is Some by {
                            let _ = bases@[j];
                        }
                    }
                    return Err(GenError::UnknownBase { base: k });
                },
            }
            k += 1;
        }
        proof {
            assert forall|j: int| 0 <= j < def.bases.bases.len() implies (#[trigger] first_class(
                self.classes@,
                def.bases.bases@[j].ident@,
                self.classes.len() as int,
            )) is Some by {
                let _ = bases@[j];
            }
        }
        let refs = collect_added_bases(def, additional);
        let mut added: Vec<usize> = Vec::new();
        let mut k: usize = 0;
        while k < refs.len()
            invariant
                self.wf(),
                self.classes@ == old(self).classes@,
                !(def.bases.bases.len() == 0 && def.body.virtuals.len() == 0),
                distinct_claims(claims_of(def.body.virtuals@), def.body.virtuals.len() as int),
                claims_fit(claims_of(def.body.virtuals@), def.body.virtuals.len() as int),
                forall|j: int|
                    0 <= j < def.bases.bases.len() ==> (#[trigger] first_class(
                        self.classes@,
                        def.bases.bases@[j].ident@,
                        self.classes.len() as int,
                    )) is Some,
                k <= refs.len(),
                added.len() == k,
                refs@ == all_added_of(def.bases.bases@, additional@),
                forall|j: int|
                    0 <= j < refs.len() ==> valid_ref(def.bases.bases@, additional@, #[trigger] refs@[j]),
                forall|j: int|
                    0 <= j < k ==> first_class(
                        self.classes@,
                        path_of(def.bases.bases@, additional@, refs@[j]).ident@,
                        self.classes.len() as int,
                    ) == Some((#[trigger] added@[j]) as int) && added@[j] < self.classes.len(),
            decreases refs.len() - k,
        {
            let path = resolve(def, additional, refs[k]);
            match self.find_class(&path.ident) {
                Some(i) => {
                    added.push(i);
                },
                None => {
                    proof {
                        assert forall|j: int| 0 <= j < k implies (#[trigger] first_class(
                            self.classes@,
                            path_of(def.bases.bases@, additional@, refs@[j]).ident@,
                            self.classes.len() as int,
                        )) is Some by {
                            let _ = added@[j];
                        }
                    }
                    return Err(GenError::UnknownAddedBase { position: k });
                },
            }
            k += 1;
        }
        let base_len: usize = if bases.len() > 0 {
            proof {
                assert(entry_wf(self.classes@, bases@[0] as int));
            }
            self.classes[bases[0]].table_len
        } else {
            0
        };
        if slots.len() > usize::MAX - base_len {
            return Err(GenError::TableTooLarge);
        }
        let table_len: usize = base_len + slots.len();
        let ghost before = self.classes@;
        let entry = ClassEntry { ident: def.ident.clone(), slots, bases, added, table_len };
        self.classes.push(entry);
        proof {
            let after = self.classes@;
            let n = before.len() as int;
            assert forall|i: int| 0 <= i < after.len() implies #[trigger] entry_wf(after, i) by {
                if i < n {
                    assert(entry_wf(before, i));
                    assert(after[i] == before[i]);
                    lemma_table_len_grows(before, after, i);
                } else {
                    if after[n].bases.len() > 0 {
                        lemma_table_len_grows(before, after, after[n].bases@[0] as int);
                    }
                }
            }
        }
        Ok(self.classes.len() - 1)
    }

    /// Which implementation a virtual call reaches, for an object of the
    /// class `dynamic` made by its public constructor: the call goes through
    /// the part reached by `path`, each step the position of a base, and
    /// names the virtual at `virt` of that part's class. Nothing where the
    /// path or the virtual does not exist, or where no table was handed on.
    pub fn dispatch(&self, dynamic: usize, path: &Vec<usize>, virt: usize) -> (res: Option<Binding>)
        requires
            self.wf(),
        ensures
            res == dispatch_of(self.classes@, dynamic as int, path@, virt),
    {
        if dynamic >= self.classes.len() {
            return None;
        }
        proof {
            assert(entry_wf(self.classes@, dynamic as int));
        }
        let mut class: usize = dynamic;
        let mut table: Option<TableRef> = Some(TableRef { owner: dynamic, base: dynamic });
        let mut threaded: Vec<TableRef> = Vec::new();
        let first = &self.classes[dynamic];
        let mut k: usize = 1;
        while k < first.bases.len()
            invariant
                dynamic < self.classes@.len(),
                first == self.classes@[dynamic as int],
                entry_wf(self.classes@, dynamic as int),
                1 <= k,
                first.bases.len() == 0 ==> k == 1,
                first.bases.len() > 0 ==> k <= first.bases.len(),
                threaded.len() == k - 1,
                forall|j: int|
                    0 <= j < k - 1 ==> #[trigger] threaded@[j] == (TableRef {
                        owner: dynamic,
                        base: first.bases@[j + 1],
                    }),
            decreases first.bases.len() - k,
        {
            threaded.push(TableRef { owner: dynamic, base: first.bases[k] });
            k += 1;
        }
        let ghost declared = threaded@;
        let mut k: usize = 0;
        while k < first.added.len()
            invariant
                dynamic < self.classes@.len(),
                first == self.classes@[dynamic as int],
                k <= first.added.len(),
                threaded@.len() == declared.len() + k,
                declared.len() == (if first.bases.len() > 0 {
                    first.bases.len() - 1
                } else {
                    0
                }),
                forall|j: int|
                    0 <= j < declared.len() ==> #[trigger] declared[j] == (TableRef {
                        owner: dynamic,
                        base: first.bases@[j + 1],
                    }),
                forall|j: int| 0 <= j < declared.len() ==> #[trigger] threaded@[j] == declared[j],
                forall|j: int|
                    0 <= j < k ==> #[trigger] threaded@[declared.len() + j] == (TableRef {
                        owner: dynamic,
                        base: first.added@[j],
                    }),
            decreases first.added.len() - k,
        {
            threaded.push(TableRef { owner: dynamic, base: first.added[k] });
            k += 1;
        }
        proof {
            let want = whole_of(self.classes@, dynamic as int).threaded;
            assert(threaded@.len() == want.len());
            assert forall|j: int| 0 <= j < want.len() implies threaded@[j] == want[j] by {
                if j < declared.len() {
                    assert(threaded@[j] == declared[j]);
                } else {
                    assert(threaded@[declared.len() + (j - declared.len())] == want[j]);
                }
            }
            assert(threaded@ =~= want);
        }
        let mut n: usize = 0;
        while n < path.len()
            invariant
                self.wf(),
                dynamic < self.classes@.len(),
                n <= path.len(),
                class < self.classes@.len(),
                table matches Some(t) ==> t.base < self.classes@.len(),
                forall|j: int|
                    0 <= j < threaded.len() ==> (#[trigger] threaded@[j]).base
                        < self.classes@.len(),
                walk_of(
                    self.classes@,
                    whole_of(self.classes@, dynamic as int),
                    path@,
                    n as int,
                ) == Some(Part { class: class as int, table, threaded: threaded@ }),
            decreases path.len() - n,
        {
            let step = path[n];
            let e = &self.classes[class];
            proof {
                assert(entry_wf(self.classes@, class as int));
            }
            if step >= e.bases.len() {
                proof {
                    lemma_walk_stops(
                        self.classes@,
                        whole_of(self.classes@, dynamic as int),
                        path@,
                        n as int + 1,
                        path.len() as int,
                    );
                }
                return None;
            }
            if step == 0 {
                let mut next: Vec<TableRef> = Vec::new();
                let mut j: usize = 0;
                while j < e.added.len()
                    invariant
                        self.wf(),
                        class < self.classes@.len(),
                        e == self.classes@[class as int],
                        entry_wf(self.classes@, class as int),
                        j <= e.added.len(),
                        next.len() == j,
                        forall|i: int|
                            0 <= i < j ==> #[trigger] next@[i] == (TableRef {
                                owner: class,
                                base: e.added@[i],
                            }),
                    decreases e.added.len() - j,
                {
                    next.push(TableRef { owner: class, base: e.added[j] });
                    j += 1;
                }
                proof {
                    let want = step_of(
                        self.classes@,
                        Part { class: class as int, table, threaded: threaded@ },
                        0,
                    )->Some_0;
                    assert(next@ =~= want.threaded);
                }
                threaded = next;
            } else {
                table = if step - 1 < threaded.len() {
                    Some(threaded[step - 1])
                } else {
                    None
                };
                threaded = Vec::new();
                proof {
                    let want = step_of(
                        self.classes@,
                        Part { class: class as int, table, threaded: threaded@ },
                        step as int,
                    )->Some_0;
                    assert(threaded@ =~= Seq::<TableRef>::empty());
                }
            }
            class = e.bases[step];
            n += 1;
        }
        let part_class = class;
        let mut root: usize = class;
        loop
            invariant
                self.wf(),
                root < self.classes@.len(),
                stored_table_of(self.classes@, part_class as int, table) == stored_table_of(
                    self.classes@,
                    root as int,
                    table,
                ),
            ensures
                self.classes@[root as int].bases.len() == 0,
            decreases root,
        {
            proof {
                assert(entry_wf(self.classes@, root as int));
            }
            if self.classes[root].bases.len() == 0 {
                break ;
            }
            root = self.classes[root].bases[0];
        }
        let stored = match table {
            Some(t) => t,
            None => {
                return None;
            },
        };
        let e = &self.classes[part_class];
        let mut s: usize = 0;
        while s < e.slots.len()
            invariant
                self.wf(),
                part_class < self.classes@.len(),
                stored.base < self.classes@.len(),
                Some(stored) == stored_table_of(self.classes@, part_class as int, table),
                walk_of(
                    self.classes@,
                    whole_of(self.classes@, dynamic as int),
                    path@,
                    path.len() as int,
                ) == Some(Part { class: part_class as int, table, threaded: threaded@ }),
                dynamic < self.classes@.len(),
                e == self.classes@[part_class as int],
                s <= e.slots.len(),
                slot_index_of(e.slots@, virt, s as int) is None,
            decreases e.slots.len() - s,
        {
            let hit = match e.slots[s] {
                Slot::Method(v) => v == virt,
                Slot::Placeholder => false,
            };
            if hit {
                proof {
                    lemma_slot_index(e.slots@, virt, s as int + 1, e.slots.len() as int);
                    assert(entry_wf(self.classes@, part_class as int));
                    lemma_table_start(self.classes@, part_class as int);
                }
                let start: usize = e.table_len - e.slots.len();
                return self.table_entry(stored.base, stored.owner, start + s);
            }
            s += 1;
        }
        None
    }
}

/// A well-formed table holds something at each of its positions.
pub proof fn lemma_table_entry_some(classes: Seq<ClassEntry>, x: int, implementor: int, idx: int)
    requires
        classes_wf(classes),
        0 <= x < classes.len(),
        0 <= idx < table_len_of(classes, x),
    ensures
        table_entry_of(classes, x, implementor, idx) is Some,
    decreases x,
{
    assert(entry_wf(classes, x));
    if idx < table_start_of(classes, x) {
        let p = primary_of(classes, x)->Some_0;
        assert(classes[x].bases@[0] < x);
        lemma_table_entry_some(classes, p, implementor, idx);
    }
}


/// The entry `e` is what registering the class `def` adds to `classes`.
pub open spec fn registers(
    classes: Seq<ClassEntry>,
    def: &ItemClass,
    additional: Seq<SecondaryBase>,
    e: ClassEntry,
) -> bool {
    let added = all_added_of(def.bases.bases@, additional);
    &&& !(def.bases.bases.len() == 0 && def.body.virtuals.len() == 0)
    &&& distinct_claims(claims_of(def.body.virtuals@), def.body.virtuals.len() as int)
    &&& claims_fit(claims_of(def.body.virtuals@), def.body.virtuals.len() as int)
    &&& e.ident@ == def.ident@
    &&& e.slots@ == table_of(claims_of(def.body.virtuals@))
    &&& e.bases.len() == def.bases.bases.len()
    &&& forall|k: int|
        0 <= k < def.bases.bases.len() ==> first_class(
            classes,
            def.bases.bases@[k].ident@,
            classes.len() as int,
        ) == Some((#[trigger] e.bases@[k]) as int)
    &&& e.added.len() == added.len()
    &&& forall|k: int|
        0 <= k < added.len() ==> first_class(
            classes,
            path_of(def.bases.bases@, additional, added[k]).ident@,
            classes.len() as int,
        ) == Some((#[trigger] e.added@[k]) as int)
}

/// Registering the class `def` in `classes` fails with the error `e`.
pub open spec fn registration_fails(
    classes: Seq<ClassEntry>,
    def: &ItemClass,
    additional: Seq<SecondaryBase>,
    e: GenError,
) -> bool {
    let claims = claims_of(def.body.virtuals@);
    let added = all_added_of(def.bases.bases@, additional);
    let anchored = !(def.bases.bases.len() == 0 && def.body.virtuals.len() == 0);
    let placed = distinct_claims(claims, claims.len() as int) && claims_fit(
        claims,
        claims.len() as int,
    );
    let known = forall|k: int|
        0 <= k < def.bases.bases.len() ==> (#[trigger] first_class(
            classes,
            def.bases.bases@[k].ident@,
            classes.len() as int,
        )) is Some;
    match e {
        GenError::NonVirtualBaseUnsupported => !anchored,
        GenError::VirtualSlotCollision { holder, claimant, slot } => anchored && holder < claimant
            < claims.len() && claim_of(claims, holder as int) == slot && claim_of(
            claims,
            claimant as int,
        ) == slot && distinct_claims(claims, claimant as int) && claims_fit(
            claims,
            claimant as int,
        ),
        GenError::VirtualSlotTooLarge { claimant } => anchored && claimant < claims.len()
            && claim_of(claims, claimant as int) >= usize::MAX && distinct_claims(
            claims,
            claimant as int,
        ) && claims_fit(claims, claimant as int),
        GenError::UnknownBase { base } => anchored && placed && base < def.bases.bases.len()
            && first_class(classes, def.bases.bases@[base as int].ident@, classes.len() as int) is None
            && forall|k: int|
            0 <= k < base ==> (#[trigger] first_class(
                classes,
                def.bases.bases@[k].ident@,
                classes.len() as int,
            )) is Some,
        GenError::UnknownAddedBase { position } => anchored && placed && known && position
            < added.len() && first_class(
            classes,
            path_of(def.bases.bases@, additional, added[position as int]).ident@,
            classes.len() as int,
        ) is None && forall|k: int|
            0 <= k < position ==> (#[trigger] first_class(
                classes,
                path_of(def.bases.bases@, additional, added[k]).ident@,
                classes.len() as int,
            )) is Some,
        GenError::TableTooLarge => anchored && placed && known && def.bases.bases.len() > 0 && (
        first_class(classes, def.bases.bases@[0].ident@, classes.len() as int) matches Some(p)
            && table_len_of(classes, p) + table_of(claims).len() > usize::MAX),
        _ => false,
    }
}

/// Appending a class changes the table of no class before it.
pub proof fn lemma_table_len_grows(before: Seq<ClassEntry>, after: Seq<ClassEntry>, x: int)
    requires
        before.len() <= after.len(),
        forall|i: int| 0 <= i < before.len() ==> #[trigger] after[i] == before[i],
        0 <= x < before.len(),
    ensures
        table_len_of(after, x) == table_len_of(before, x),
    decreases x,
{
    match primary_of(before, x) {
        Some(p) => {
            if 0 <= p < x {
                lemma_table_len_grows(before, after, p);
            }
        },
        None => {},
    }
}

/// Once a walk has left the hierarchy, it stays outside.
pub proof fn lemma_walk_stops(classes: Seq<ClassEntry>, part: Part, path: Seq<usize>, n: int, m: int)
    requires
        0 <= n <= m,
        walk_of(classes, part, path, n) is None,
    ensures
        walk_of(classes, part, path, m) is None,
    decreases m,
{
    if m > n {
        lemma_walk_stops(classes, part, path, n, m - 1);
    }
}


/// The class `x` is reached from the class `top` by primary bases alone;
/// `top` itself is.
pub open spec fn on_primary_chain(classes: Seq<ClassEntry>, top: int, x: int) -> bool
    decreases top,
{
    top == x || (match primary_of(classes, top) {
        Some(p) => 0 <= p < top && on_primary_chain(classes, p, x),
        None => false,
    })
}

/// A path that takes the primary base at each of its first `n` steps.
pub open spec fn all_primary(path: Seq<usize>, n: int) -> bool {
    forall|k: int| 0 <= k < n ==> #[trigger] path[k] == 0
}

/// The table of a class with a primary base is the table of that base
/// followed by one function pointer per slot of the class: its length is the
/// length of the base's table plus the number of the class's slots.
pub proof fn lemma_table_extends_base(classes: Seq<ClassEntry>, x: int)
    requires
        classes_wf(classes),
        0 <= x < classes.len(),
        classes[x].bases.len() > 0,
    ensures
        table_len_of(classes, x) == table_len_of(classes, classes[x].bases@[0] as int)
            + classes[x].slots.len(),
        forall|implementor: int, idx: int|
            0 <= idx < table_len_of(classes, classes[x].bases@[0] as int)
                ==> #[trigger] table_entry_of(classes, x, implementor, idx) == table_entry_of(
                classes,
                classes[x].bases@[0] as int,
                implementor,
                idx,
            ),
{
    assert(entry_wf(classes, x));
    assert(classes[x].bases@[0] < x);
}

/// A placeholder slot is populated with the failing stub, whoever the
/// implementor is, and a slot that a virtual claims with that virtual's
/// implementation by the implementor.
pub proof fn lemma_slot_binding(classes: Seq<ClassEntry>, x: int, implementor: int, s: int)
    requires
        classes_wf(classes),
        0 <= x < classes.len(),
        0 <= s < classes[x].slots.len(),
    ensures
        classes[x].slots@[s] == Slot::Placeholder ==> table_entry_of(
            classes,
            x,
            implementor,
            table_start_of(classes, x) + s,
        ) == Some(Binding::Failing),
        classes[x].slots@[s] matches Slot::Method(virt) ==> table_entry_of(
            classes,
            x,
            implementor,
            table_start_of(classes, x) + s,
        ) == Some(
            Binding::Bound { implementor: implementor as usize, interface: x as usize, virt },
        ),
{
    lemma_table_start(classes, x);
}

/// Primary bases extend a chain at its far end.
pub proof fn lemma_chain_extends(classes: Seq<ClassEntry>, top: int, x: int)
    requires
        on_primary_chain(classes, top, x),
        primary_of(classes, x) matches Some(q) && 0 <= q < x,
    ensures
        on_primary_chain(classes, top, primary_of(classes, x)->Some_0),
    decreases top,
{
    let q = primary_of(classes, x)->Some_0;
    if top != x {
        lemma_chain_extends(classes, primary_of(classes, top)->Some_0, x);
    } else {
        assert(on_primary_chain(classes, q, q));
    }
}

/// The table of a class starts with the table of every class on its primary
/// chain.
pub proof fn lemma_chain_shares_prefix(
    classes: Seq<ClassEntry>,
    top: int,
    x: int,
    implementor: int,
    idx: int,
)
    requires
        classes_wf(classes),
        0 <= top < classes.len(),
        on_primary_chain(classes, top, x),
        0 <= idx < table_len_of(classes, x),
    ensures
        0 <= x <= top,
        table_len_of(classes, x) <= table_len_of(classes, top),
        table_entry_of(classes, top, implementor, idx) == table_entry_of(
            classes,
            x,
            implementor,
            idx,
        ),
    decreases top,
{
    if top != x {
        let p = primary_of(classes, top)->Some_0;
        lemma_chain_shares_prefix(classes, p, x, implementor, idx);
        lemma_table_start(classes, top);
    }
}

/// What a class hands down its primary chain is what the root stores.
pub proof fn lemma_stored_table(classes: Seq<ClassEntry>, x: int, table: Option<TableRef>)
    requires
        classes_wf(classes),
        0 <= x < classes.len(),
    ensures
        stored_table_of(classes, x, table) == table,
    decreases x,
{
    assert(entry_wf(classes, x));
    if classes[x].bases.len() > 0 {
        assert(classes[x].bases@[0] < x);
        lemma_stored_table(classes, classes[x].bases@[0] as int, table);
    }
}

/// Along primary bases the object's own static table is handed on.
pub proof fn lemma_primary_walk(classes: Seq<ClassEntry>, c: int, path: Seq<usize>, n: int)
    requires
        classes_wf(classes),
        0 <= c < classes.len(),
        0 <= n <= path.len(),
        all_primary(path, n),
        walk_of(classes, whole_of(classes, c), path, n) is Some,
    ensures
        ({
            let part = walk_of(classes, whole_of(classes, c), path, n)->Some_0;
            &&& part.table == Some(TableRef { owner: c as usize, base: c as usize })
            &&& on_primary_chain(classes, c, part.class)
            &&& 0 <= part.class < classes.len()
        }),
    decreases n,
{
    if n > 0 {
        lemma_primary_walk(classes, c, path, n - 1);
        let before = walk_of(classes, whole_of(classes, c), path, n - 1)->Some_0;
        assert(path[n - 1] == 0);
        assert(entry_wf(classes, before.class));
        assert(classes[before.class].bases@[0] < before.class);
        lemma_chain_extends(classes, c, before.class);
    }
}

/// An object answers a virtual call through its primary chain with its own
/// class's implementation: the part reached by primary bases alone stores
/// the table that the object's class holds for itself, and the slot of a
/// virtual of that part's class holds the implementation by the object's
/// class. This holds for every constructor that the class generates, the
/// default one too, since each hands on the same tables.
pub proof fn lemma_primary_chain_dispatch(
    classes: Seq<ClassEntry>,
    c: int,
    path: Seq<usize>,
    virt: usize,
)
    requires
        classes_wf(classes),
        classes.len() <= usize::MAX,
        0 <= c < classes.len(),
        all_primary(path, path.len() as int),
        walk_of(classes, whole_of(classes, c), path, path.len() as int) is Some,
        slot_index_of(
            classes[walk_of(
                classes,
                whole_of(classes, c),
                path,
                path.len() as int,
            )->Some_0.class].slots@,
            virt,
            classes[walk_of(
                classes,
                whole_of(classes, c),
                path,
                path.len() as int,
            )->Some_0.class].slots.len() as int,
        ) is Some,
    ensures
        ({
            let part = walk_of(classes, whole_of(classes, c), path, path.len() as int)->Some_0;
            &&& stored_table_of(classes, part.class, part.table) == Some(
                TableRef { owner: c as usize, base: c as usize },
            )
            &&& dispatch_of(classes, c, path, virt) == Some(
                Binding::Bound { implementor: c as usize, interface: part.class as usize, virt },
            )
        }),
{
    let part = walk_of(classes, whole_of(classes, c), path, path.len() as int)->Some_0;
    lemma_primary_walk(classes, c, path, path.len() as int);
    lemma_stored_table(classes, part.class, part.table);
    let slots = classes[part.class].slots@;
    lemma_slot_index(slots, virt, slots.len() as int, slots.len() as int);
    let s = slot_index_of(slots, virt, slots.len() as int)->Some_0;
    lemma_table_start(classes, part.class);
    let idx = table_start_of(classes, part.class) + s;
    lemma_chain_shares_prefix(classes, c, part.class, c, idx);
    lemma_slot_binding(classes, part.class, c, s);
}

/// An object answers a virtual call through a declared secondary base with
/// its own class's implementation: the part at that base stores the table
/// that the object's class holds for the base, and the slot of a virtual of
/// the base holds the implementation by the object's class.
pub proof fn lemma_secondary_base_dispatch(classes: Seq<ClassEntry>, c: int, k: int, virt: usize)
    requires
        classes_wf(classes),
        classes.len() <= usize::MAX,
        0 <= c < classes.len(),
        1 <= k < classes[c].bases.len(),
        k <= usize::MAX,
        slot_index_of(
            classes[classes[c].bases@[k] as int].slots@,
            virt,
            classes[classes[c].bases@[k] as int].slots.len() as int,
        ) is Some,
    ensures
        dispatch_of(classes, c, seq![k as usize], virt) == Some(
            Binding::Bound {
                implementor: c as usize,
                interface: classes[c].bases@[k],
                virt,
            },
        ),
{
    let path = seq![k as usize];
    let start = whole_of(classes, c);
    let b = classes[c].bases@[k] as int;
    assert(entry_wf(classes, c));
    assert(classes[c].bases@[k] < c);
    assert(walk_of(classes, start, path, 0) == Some(start));
    assert(walk_of(classes, start, path, 1) == step_of(classes, start, k));
    let table = TableRef { owner: c as usize, base: classes[c].bases@[k] };
    assert(start.threaded[k - 1] == table);
    let part = step_of(classes, start, k)->Some_0;
    assert(part.table == Some(table));
    lemma_stored_table(classes, b, part.table);
    let slots = classes[b].slots@;
    lemma_slot_index(slots, virt, slots.len() as int, slots.len() as int);
    let s = slot_index_of(slots, virt, slots.len() as int)->Some_0;
    lemma_table_start(classes, b);
    lemma_slot_binding(classes, b, c, s);
}

/// A class that names a secondary base of its primary base in the
/// additional-bases directive hands its own static table for that base down:
/// the part of the object at that base stores the table that the object's
/// class holds, not the one of the class in between.
pub proof fn lemma_added_base_table(classes: Seq<ClassEntry>, c: int, k: int)
    requires
        classes_wf(classes),
        0 <= c < classes.len(),
        classes[c].bases.len() > 0,
        1 <= k <= classes[c].added.len(),
        k < classes[classes[c].bases@[0] as int].bases.len(),
        k <= usize::MAX,
    ensures
        walk_of(classes, whole_of(classes, c), seq![0usize, k as usize], 2) == Some(
            Part {
                class: classes[classes[c].bases@[0] as int].bases@[k] as int,
                table: Some(TableRef { owner: c as usize, base: classes[c].added@[k - 1] }),
                threaded: Seq::empty(),
            },
        ),
{
    let path = seq![0usize, k as usize];
    let start = whole_of(classes, c);
    assert(entry_wf(classes, c));
    assert(classes[c].bases@[0] < c);
    assert(walk_of(classes, start, path, 0) == Some(start));
    assert(walk_of(classes, start, path, 1) == step_of(classes, start, 0));
    let mid = step_of(classes, start, 0)->Some_0;
    assert(mid.threaded[k - 1] == TableRef { owner: c as usize, base: classes[c].added@[k - 1] });
    assert(walk_of(classes, start, path, 2) == step_of(classes, mid, k));
}


/// The table that an argument of a base-constructor call stands for, while
/// the constructor of `part` runs: the embedded table is the constructor's
/// own table, a static is the one that the part's class holds for the base
/// that the directive adds at `place`, and a parameter is the table that the
/// constructor took for the threaded base at that position.
pub open spec fn table_handed(
    classes: Seq<ClassEntry>,
    part: Part,
    arg: CallArg,
    place: int,
) -> Option<TableRef> {
    match arg {
        CallArg::EmbeddedTable => part.table,
        CallArg::Static { base } => Some(
            TableRef { owner: part.class as usize, base: classes[part.class].added@[place] },
        ),
        CallArg::Param { position } => if position < part.threaded.len() {
            Some(part.threaded[position as int])
        } else {
            None
        },
    }
}

/// The construction of an object follows the plan of the rewriter: the part
/// at a base is made with the tables that the rewritten call hands to the
/// constructor of that base, the first as its own table and the others for
/// its threaded bases.
pub proof fn lemma_step_follows_the_plan(
    classes: Seq<ClassEntry>,
    part: Part,
    k: int,
    added: Seq<BaseRef>,
)
    requires
        0 <= part.class < classes.len(),
        part.class <= usize::MAX,
        0 <= k < classes[part.class].bases.len(),
        added.len() == classes[part.class].added.len(),
    ensures
        step_of(classes, part, k) == Some(
            Part {
                class: classes[part.class].bases@[k] as int,
                table: table_handed(classes, part, handed_args(k, added)[0], 0),
                threaded: Seq::new(
                    (handed_args(k, added).len() - 1) as nat,
                    |j: int| table_handed(classes, part, handed_args(k, added)[j + 1], j)->Some_0,
                ),
            },
        ),
{
    let made = step_of(classes, part, k)->Some_0;
    let args = handed_args(k, added);
    assert(made.threaded =~= Seq::new(
        (args.len() - 1) as nat,
        |j: int| table_handed(classes, part, args[j + 1], j)->Some_0,
    ));
}

} // verus!
