//! The capability registry and the asset provider.
//!
//! A host object type becomes animatable by registering a capability
//! table under its type tag: a value resolver kind, a pose-apply
//! capability, or both.  Registration is an explicit, startup-time
//! call; the engine only ever looks the tables up.  The asset provider
//! stands for the external asset-loading collaborator: it maps asset
//! references to handles of already-loaded assets.

use crate::assoc::assoc_get;
use crate::assoc::assoc_has;
use crate::assoc::assoc_index;
use crate::assoc::assoc_put;
use crate::assoc::lemma_assoc_index;
use crate::assoc::lemma_assoc_index_at;
use crate::assoc::StrMap;
use crate::names::ShortTypePath;
use crate::value::AssetPath;
use crate::value::AssetPathModel;
use crate::value::ValueType;
use vstd::prelude::*;

verus! {

/// The capabilities registered for one type tag.
#[derive(Debug, Clone, Copy)]
pub struct CapabilityTable {
    /// How raw values bound to this tag resolve, if the type is
    /// value-animatable.
    pub value_type: Option<ValueType>,
    /// Whether whole poses may be applied to components of this type.
    pub animate_component: bool,
}

impl View for CapabilityTable {
    type V = CapabilityTable;

    open spec fn view(&self) -> CapabilityTable {
        *self
    }
}

/// What registering a value resolver does to the registry: it sets the
/// resolver kind of the tag's table, keeping any apply capability, and
/// appends a fresh table for an unknown tag.
pub open spec fn spec_register_value(
    reg: Seq<(Seq<char>, CapabilityTable)>,
    tag: Seq<char>,
    vt: ValueType,
) -> Seq<(Seq<char>, CapabilityTable)> {
    let prior = match assoc_get(reg, tag) {
        Some(c) => c,
        None => CapabilityTable { value_type: None, animate_component: false },
    };
    assoc_put(
        reg,
        tag,
        CapabilityTable { value_type: Some(vt), animate_component: prior.animate_component },
    )
}

/// What registering an apply capability does to the registry.
pub open spec fn spec_register_component(
    reg: Seq<(Seq<char>, CapabilityTable)>,
    tag: Seq<char>,
) -> Seq<(Seq<char>, CapabilityTable)> {
    let prior = match assoc_get(reg, tag) {
        Some(c) => c,
        None => CapabilityTable { value_type: None, animate_component: false },
    };
    assoc_put(
        reg,
        tag,
        CapabilityTable { value_type: prior.value_type, animate_component: true },
    )
}

/// An explicit registry from type tags to capability tables,
/// constructed at startup and consulted by the sample and apply
/// phases.  It replaces any ambient, process-wide registration.
pub struct AnimationRegistry {
    table: StrMap<CapabilityTable>,
}

impl View for AnimationRegistry {
    type V = Seq<(Seq<char>, CapabilityTable)>;

    closed spec fn view(&self) -> Seq<(Seq<char>, CapabilityTable)> {
        self.table@
    }
}

impl AnimationRegistry {
    pub fn new() -> (r: Self)
        ensures
            r@ == Seq::<(Seq<char>, CapabilityTable)>::empty(),
    {
        AnimationRegistry { table: StrMap::new() }
    }

    /// Registers `tag` as a value type whose raw values resolve per
    /// `vt`.
    pub fn register_animate_value(&mut self, tag: &ShortTypePath, vt: ValueType)
        ensures
            final(self)@ == spec_register_value(old(self)@, tag@, vt),
    {
        let prior = match self.table.get(tag.as_string()) {
            Some(c) => *c,
            None => CapabilityTable { value_type: None, animate_component: false },
        };
        self.table.insert(
            tag.as_string().clone(),
            CapabilityTable { value_type: Some(vt), animate_component: prior.animate_component },
        );
    }

    /// Registers `tag` as a component type that poses can be applied
    /// to.
    pub fn register_animate_component(&mut self, tag: &ShortTypePath)
        ensures
            final(self)@ == spec_register_component(old(self)@, tag@),
    {
        let prior = match self.table.get(tag.as_string()) {
            Some(c) => *c,
            None => CapabilityTable { value_type: None, animate_component: false },
        };
        self.table.insert(
            tag.as_string().clone(),
            CapabilityTable { value_type: prior.value_type, animate_component: true },
        );
    }

    /// The capability table registered for a tag, if any.
    pub fn lookup(&self, tag: &String) -> (r: Option<&CapabilityTable>)
        ensures
            match r {
                Some(c) => assoc_get(self@, tag@) == Some(c@),
                None => assoc_get(self@, tag@) is None,
            },
    {
        self.table.get(tag)
    }

    /// Whether the tag carries an apply capability.
    pub fn is_component_animatable(&self, tag: &String) -> (r: bool)
        ensures
            r == match assoc_get(self@, tag@) {
                Some(c) => c.animate_component,
                None => false,
            },
    {
        match self.lookup(tag) {
            Some(c) => c.animate_component,
            None => false,
        }
    }

    /// Whether the tag carries a value resolver, and which.
    pub fn value_type_of(&self, tag: &String) -> (r: Option<ValueType>)
        ensures
            r == match assoc_get(self@, tag@) {
                Some(c) => c.value_type,
                None => None::<ValueType>,
            },
    {
        match self.lookup(tag) {
            Some(c) => c.value_type,
            None => None,
        }
    }
}

/// The engine's window onto the external asset-loading collaborator: a
/// catalogue of the asset references whose targets are loaded, each
/// with the opaque handle the host gave it.  A reference that is not
/// in the catalogue is treated as not yet loaded.
pub struct AssetProvider {
    entries: Vec<(AssetPath, u128)>,
}

impl View for AssetProvider {
    type V = Seq<(AssetPathModel, u128)>;

    closed spec fn view(&self) -> Seq<(AssetPathModel, u128)> {
        Seq::new(self.entries@.len(), |i: int| (self.entries@[i].0@, self.entries@[i].1))
    }
}

impl AssetProvider {
    pub fn new() -> (r: Self)
        ensures
            r@ == Seq::<(AssetPathModel, u128)>::empty(),
    {
        let r = AssetProvider { entries: Vec::new() };
        proof {
            assert(r@ =~= Seq::<(AssetPathModel, u128)>::empty());
        }
        r
    }

    /// Position of the first catalogue entry for `a`, if one exists.
    fn index_of(&self, a: &AssetPath) -> (r: Option<usize>)
        ensures
            match r {
                Some(i) => i as int == assoc_index(self@, a@),
                None => !assoc_has(self@, a@),
            },
    {
        let n = self.entries.len();
        for i in 0..n
            invariant
                n == self@.len(),
                forall|j: int| 0 <= j < i ==> self@[j].0 != a@,
        {
            if self.entries[i].0.path.eq(&a.path) && self.entries[i].0.type_path.eq_path(
                &a.type_path,
            ) {
                proof {
                    assert(self@[i as int].0 == a@);
                    lemma_assoc_index_at(self@, a@, i as int);
                }
                return Some(i);
            }
        }
        proof {
            lemma_assoc_index(self@, a@);
        }
        None
    }

    /// Marks the target of `a` as loaded under handle `h`; a reference
    /// already in the catalogue keeps its place and takes the new
    /// handle.
    pub fn register_asset(&mut self, a: AssetPath, h: u128)
        ensures
            final(self)@ == assoc_put(old(self)@, a@, h),
    {
        proof {
            lemma_assoc_index(old(self)@, a@);
        }
        let ghost oldv = self@;
        match self.index_of(&a) {
            Some(i) => {
                self.entries[i] = (a, h);
                proof {
                    assert(self@ =~= assoc_put(oldv, a@, h));
                }
            },
            None => {
                self.entries.push((a, h));
                proof {
                    assert(self@ =~= assoc_put(oldv, a@, h));
                }
            },
        }
    }

    /// The handle of the loaded asset that `a` names, or `None` while
    /// the target is missing or not yet loaded.
    pub fn resolve_asset(&self, a: &AssetPath) -> (r: Option<u128>)
        ensures
            r == assoc_get(self@, a@),
    {
        proof {
            lemma_assoc_index(self@, a@);
        }
        match self.index_of(a) {
            Some(i) => Some(self.entries[i].1),
            None => None,
        }
    }
}

} // verus!
