//! Keyframe values, the bindings that say where a value is written, and
//! the resolution of a raw sampled value into a native value.

use crate::assoc::assoc_get;
use crate::names::ShortTypePath;
use crate::registry::AnimationRegistry;
use crate::registry::AssetProvider;
use crate::registry::CapabilityTable;
use vstd::prelude::*;

verus! {

/// The kinds of native values a raw keyframe value can resolve into.
#[derive(Debug, Clone, Copy, PartialEq, Eq, Structural)]
pub enum ValueType {
    Bool,
    Usize,
    Asset,
}

/// A reference to an asset by path, together with the type tag the
/// asset is expected to have.
#[derive(Debug)]
pub struct AssetPath {
    pub path: String,
    pub type_path: ShortTypePath,
}

/// Mathematical model of an [`AssetPath`].
pub ghost struct AssetPathModel {
    pub path: Seq<char>,
    pub type_path: Seq<char>,
}

impl View for AssetPath {
    type V = AssetPathModel;

    open spec fn view(&self) -> AssetPathModel {
        AssetPathModel { path: self.path@, type_path: self.type_path@ }
    }
}

impl Clone for AssetPath {
    fn clone(&self) -> (r: Self)
        ensures
            r@ == self@,
    {
        AssetPath { path: self.path.clone(), type_path: self.type_path.clone() }
    }
}

/// One raw sampled datum: either an integer scalar or an asset
/// reference.  Scalars are integers so that sampling is exact; the host
/// application chooses their unit.
#[derive(Debug)]
pub enum TrackValue {
    Number(i64),
    Asset(AssetPath),
}

/// Mathematical model of a [`TrackValue`].
pub ghost enum TrackValueModel {
    Number(int),
    Asset(AssetPathModel),
}

impl View for TrackValue {
    type V = TrackValueModel;

    open spec fn view(&self) -> TrackValueModel {
        match self {
            TrackValue::Number(n) => TrackValueModel::Number(*n as int),
            TrackValue::Asset(a) => TrackValueModel::Asset(a@),
        }
    }
}

impl Clone for TrackValue {
    fn clone(&self) -> (r: Self)
        ensures
            r@ == self@,
    {
        match self {
            TrackValue::Number(n) => TrackValue::Number(*n),
            TrackValue::Asset(a) => TrackValue::Asset(a.clone()),
        }
    }
}

/// Where a sampled value is written: a named field of the target type,
/// or the whole value of the target when `path` is `None`.
#[derive(Debug)]
pub struct ValueBinding {
    /// Field path within the target object; `None` binds the whole
    /// object value.
    pub path: Option<String>,
    /// Type tag under which the value resolver is registered.
    pub component_type: ShortTypePath,
}

/// Mathematical model of a [`ValueBinding`].
pub ghost struct ValueBindingModel {
    pub path: Option<Seq<char>>,
    pub component_type: Seq<char>,
}

impl View for ValueBinding {
    type V = ValueBindingModel;

    open spec fn view(&self) -> ValueBindingModel {
        ValueBindingModel {
            path: match self.path {
                Some(p) => Some(p@),
                None => None,
            },
            component_type: self.component_type@,
        }
    }
}

impl Clone for ValueBinding {
    fn clone(&self) -> (r: Self)
        ensures
            r@ == self@,
    {
        ValueBinding {
            path: match &self.path {
                Some(p) => Some(p.clone()),
                None => None,
            },
            component_type: self.component_type.clone(),
        }
    }
}

/// One sampled binding/value pair awaiting resolution.
#[derive(Debug)]
pub struct BoundValue {
    pub binding: ValueBinding,
    pub value: TrackValue,
}

/// Mathematical model of a [`BoundValue`].
pub ghost struct BoundValueModel {
    pub binding: ValueBindingModel,
    pub value: TrackValueModel,
}

impl View for BoundValue {
    type V = BoundValueModel;

    open spec fn view(&self) -> BoundValueModel {
        BoundValueModel { binding: self.binding@, value: self.value@ }
    }
}

impl Clone for BoundValue {
    fn clone(&self) -> (r: Self)
        ensures
            r@ == self@,
    {
        BoundValue { binding: self.binding.clone(), value: self.value.clone() }
    }
}

/// A fully resolved native value, ready to be written into a host
/// object.  Asset references resolve to an opaque handle identifier.
#[derive(Debug, Clone, Copy, PartialEq, Eq, Structural)]
pub enum NativeValue {
    Bool(bool),
    Usize(usize),
    Asset(u128),
}

impl View for NativeValue {
    type V = NativeValue;

    open spec fn view(&self) -> NativeValue {
        *self
    }
}

/// Why the resolution of one bound value failed.  Resolution failures
/// drop the one value; they never abort sampling.
#[derive(Debug, Clone, Copy, PartialEq, Eq, Structural)]
pub enum ResolveError {
    /// The binding's type tag is not in the registry at all.
    NotRegistered,
    /// The type tag is registered, but carries no value resolver.
    NotAnimatable,
    /// The raw value's variant does not fit the registered resolver.
    WrongKind,
    /// An asset reference names a different type than the binding.
    AssetTypeMismatch,
    /// The asset provider has no loaded handle for the reference.
    AssetNotLoaded,
}

impl View for ResolveError {
    type V = ResolveError;

    open spec fn view(&self) -> ResolveError {
        *self
    }
}

/// Saturating conversion of a scalar to `usize`: negative scalars give
/// zero, overlarge ones give `usize::MAX`.
pub open spec fn scalar_to_usize(n: int) -> usize {
    if n < 0 {
        0usize
    } else if n > usize::MAX {
        usize::MAX
    } else {
        n as usize
    }
}

/// What resolving a bound value yields, given the registry and the
/// asset provider: the boolean resolver tests the scalar against zero,
/// the unsigned resolver saturates it, and the asset resolver checks
/// the expected type tag and looks the path up with the provider.
pub open spec fn spec_resolve(
    b: BoundValueModel,
    reg: Seq<(Seq<char>, CapabilityTable)>,
    assets: Seq<(AssetPathModel, u128)>,
) -> Result<NativeValue, ResolveError> {
    match assoc_get(reg, b.binding.component_type) {
        Option::None => Err(ResolveError::NotRegistered),
        Option::Some(cap) => match cap.value_type {
            Option::None => Err(ResolveError::NotAnimatable),
            Option::Some(ValueType::Bool) => match b.value {
                TrackValueModel::Number(n) => Ok(NativeValue::Bool(n != 0)),
                TrackValueModel::Asset(_) => Err(ResolveError::WrongKind),
            },
            Option::Some(ValueType::Usize) => match b.value {
                TrackValueModel::Number(n) => Ok(NativeValue::Usize(scalar_to_usize(n))),
                TrackValueModel::Asset(_) => Err(ResolveError::WrongKind),
            },
            Option::Some(ValueType::Asset) => match b.value {
                TrackValueModel::Number(_) => Err(ResolveError::WrongKind),
                TrackValueModel::Asset(a) => {
                    if a.type_path != b.binding.component_type {
                        Err(ResolveError::AssetTypeMismatch)
                    } else {
                        match assoc_get(assets, a) {
                            Option::Some(h) => Ok(NativeValue::Asset(h)),
                            Option::None => Err(ResolveError::AssetNotLoaded),
                        }
                    }
                },
            },
        },
    }
}

impl BoundValue {
    /// Resolves this bound value to a native value through the
    /// capability registry, consulting the asset provider for asset
    /// references.
    pub fn get_reflect_value(
        &self,
        registry: &AnimationRegistry,
        assets: &AssetProvider,
    ) -> (r: Result<NativeValue, ResolveError>)
        ensures
            r == spec_resolve(self@, registry@, assets@),
    {
        let cap = match registry.lookup(self.binding.component_type.as_string()) {
            Some(c) => c,
            None => {
                return Err(ResolveError::NotRegistered);
            },
        };
        let vt = match cap.value_type {
            Some(vt) => vt,
            None => {
                return Err(ResolveError::NotAnimatable);
            },
        };
        match vt {
            ValueType::Bool => match &self.value {
                TrackValue::Number(n) => Ok(NativeValue::Bool(*n != 0)),
                TrackValue::Asset(_) => Err(ResolveError::WrongKind),
            },
            ValueType::Usize => match &self.value {
                TrackValue::Number(n) => {
                    let n = *n;
                    if n < 0 {
                        Ok(NativeValue::Usize(0))
                    } else {
                        let nu = n as u64;
                        if nu > usize::MAX as u64 {
                            Ok(NativeValue::Usize(usize::MAX))
                        } else {
                            Ok(NativeValue::Usize(nu as usize))
                        }
                    }
                },
                TrackValue::Asset(_) => Err(ResolveError::WrongKind),
            },
            ValueType::Asset => match &self.value {
                TrackValue::Number(_) => Err(ResolveError::WrongKind),
                TrackValue::Asset(a) => {
                    if !a.type_path.eq_path(&self.binding.component_type) {
                        Err(ResolveError::AssetTypeMismatch)
                    } else {
                        match assets.resolve_asset(a) {
                            Some(h) => Ok(NativeValue::Asset(h)),
                            None => Err(ResolveError::AssetNotLoaded),
                        }
                    }
                },
            },
        }
    }
}


/// One resolved value of a pose: the field path it is written to
/// (`None` for the whole object) and the native value.
#[derive(Debug)]
pub struct ReflectBoundValue {
    pub path: Option<String>,
    pub value: NativeValue,
}

/// Mathematical model of a [`ReflectBoundValue`].
pub ghost struct ReflectBoundValueModel {
    pub path: Option<Seq<char>>,
    pub value: NativeValue,
}

impl View for ReflectBoundValue {
    type V = ReflectBoundValueModel;

    open spec fn view(&self) -> ReflectBoundValueModel {
        ReflectBoundValueModel {
            path: match self.path {
                Some(p) => Some(p@),
                None => None,
            },
            value: self.value,
        }
    }
}

impl Clone for ReflectBoundValue {
    fn clone(&self) -> (r: Self)
        ensures
            r@ == self@,
    {
        ReflectBoundValue {
            path: match &self.path {
                Some(p) => Some(p.clone()),
                None => None,
            },
            value: self.value,
        }
    }
}

/// All resolved values for one target type at one instant, consumed
/// exactly once by the apply phase.
#[derive(Debug)]
pub struct ComponentPose {
    pub values: Vec<ReflectBoundValue>,
}

impl View for ComponentPose {
    type V = Seq<ReflectBoundValueModel>;

    open spec fn view(&self) -> Seq<ReflectBoundValueModel> {
        self.values@.map_values(|v: ReflectBoundValue| v@)
    }
}

/// All raw bound values sampled for one target type at one instant,
/// awaiting resolution.
#[derive(Debug)]
pub struct BoundComponentValue(pub Vec<BoundValue>);

impl View for BoundComponentValue {
    type V = Seq<BoundValueModel>;

    open spec fn view(&self) -> Seq<BoundValueModel> {
        self.0@.map_values(|b: BoundValue| b@)
    }
}

/// The resolved values of the bound values whose resolution succeeds,
/// in order; failures drop the one value.
pub open spec fn spec_resolve_all(
    s: Seq<BoundValueModel>,
    reg: Seq<(Seq<char>, CapabilityTable)>,
    assets: Seq<(AssetPathModel, u128)>,
) -> Seq<ReflectBoundValueModel>
    decreases s.len(),
{
    if s.len() == 0 {
        Seq::empty()
    } else {
        spec_resolve_all(s.drop_last(), reg, assets) + match spec_resolve(s.last(), reg, assets) {
            Ok(v) => seq![ReflectBoundValueModel { path: s.last().binding.path, value: v }],
            Err(_) => Seq::empty(),
        }
    }
}

/// What aggregating one target type's bound values into a pose
/// yields: the resolved values in order, or `None` when none of them
/// resolves, so that empty poses are omitted.
pub open spec fn spec_component_pose(
    s: Seq<BoundValueModel>,
    reg: Seq<(Seq<char>, CapabilityTable)>,
    assets: Seq<(AssetPathModel, u128)>,
) -> Option<Seq<ReflectBoundValueModel>> {
    let vals = spec_resolve_all(s, reg, assets);
    if vals.len() == 0 {
        None
    } else {
        Some(vals)
    }
}

impl BoundComponentValue {
    /// Resolves the sampled bound values of one target type into a
    /// pose.  Values that fail to resolve are dropped one by one;
    /// when nothing resolves, no pose is produced at all.
    pub fn get_component_pose(
        &self,
        registry: &AnimationRegistry,
        assets: &AssetProvider,
    ) -> (r: Option<ComponentPose>)
        ensures
            match r {
                Some(p) => spec_component_pose(self@, registry@, assets@) == Some(p@),
                None => spec_component_pose(self@, registry@, assets@) is None,
            },
    {
        let mut values: Vec<ReflectBoundValue> = Vec::new();
        let n = self.0.len();
        for i in 0..n
            invariant
                n == self.0@.len(),
                values@.map_values(|v: ReflectBoundValue| v@) == spec_resolve_all(
                    self@.take(i as int),
                    registry@,
                    assets@,
                ),
        {
            let bound_value = &self.0[i];
            proof {
                assert(self@.take(i + 1).drop_last() =~= self@.take(i as int));
                assert(self@.take(i + 1).last() == self@[i as int]);
            }
            match bound_value.get_reflect_value(registry, assets) {
                Ok(value) => {
                    let path = match &bound_value.binding.path {
                        Some(p) => Some(p.clone()),
                        None => None,
                    };
                    values.push(ReflectBoundValue { path, value });
                    proof {
                        assert(values@.map_values(|v: ReflectBoundValue| v@)
                            =~= spec_resolve_all(self@.take(i + 1), registry@, assets@));
                    }
                },
                Err(_) => {
                    proof {
                        assert(values@.map_values(|v: ReflectBoundValue| v@)
                            =~= spec_resolve_all(self@.take(i + 1), registry@, assets@));
                    }
                },
            }
        }
        proof {
            assert(self@.take(n as int) =~= self@);
        }
        if values.len() == 0 {
            None
        } else {
            Some(ComponentPose { values })
        }
    }
}

} // verus!
