//! The layered configuration model: sections of different specificity, first
//! as they were written and then checked and narrowed to flat values.

use crate::error::{ResolutionError, ResolutionErrorView};
use crate::identifiers::{same_text, BuildProfile, SupportedPlatform, SupportedTarget};
use crate::properties::{distinct_names, find_property, named_properties, property_views};
use crate::search::{first_true, is_first_true, lemma_first_true};
use crate::value::{
    flat_of, toml_shape, FlatTomlProperty, FlatTomlValue, PropertyView, ShapeView,
};
use vstd::prelude::*;

verus! {

/// What a section applies to. The variants stand in the order of their
/// precedence, lowest first.
#[derive(Clone, Copy, Debug, PartialEq, Eq, Hash, Structural)]
pub enum LayerScope {
    /// Every target, platform and profile.
    Global,
    /// One target, whatever the platform and profile.
    Target(SupportedTarget),
    /// One platform, whatever the target and profile.
    Platform(SupportedPlatform),
    /// One profile, whatever the target and platform.
    Profile(BuildProfile),
}

impl LayerScope {
    /// The name under which a section for this scope is written: `global`,
    /// or the canonical name of the target, platform or profile.
    pub open spec fn name(self) -> Seq<char> {
        match self {
            LayerScope::Global => "global"@,
            LayerScope::Target(t) => t.name(),
            LayerScope::Platform(p) => p.name(),
            LayerScope::Profile(b) => b.name(),
        }
    }

    /// The scope that a sequence of characters names exactly, if there is
    /// one.
    pub open spec fn named(s: Seq<char>) -> Option<LayerScope> {
        if exists|v: LayerScope| v.name() == s {
            Some(choose|v: LayerScope| v.name() == s)
        } else {
            None
        }
    }

    /// Two scopes with the same name are the same scope: no name is shared
    /// between the sets of targets, platforms and profiles, and none of them
    /// is `global`.
    pub proof fn lemma_name_injective(a: LayerScope, b: LayerScope)
        requires
            a.name() == b.name(),
        ensures
            a == b,
    {
        reveal_strlit("global");
        reveal_strlit("x86_64-sel4-fel4");
        reveal_strlit("armv7-sel4-fel4");
        reveal_strlit("aarch64-sel4-fel4");
        reveal_strlit("pc99");
        reveal_strlit("sabre");
        reveal_strlit("tx1");
        reveal_strlit("debug");
        reveal_strlit("release");
        assert("global"@.len() == 6);
        assert("x86_64-sel4-fel4"@.len() == 16);
        assert("armv7-sel4-fel4"@.len() == 15);
        assert("aarch64-sel4-fel4"@.len() == 17);
        assert("pc99"@.len() == 4);
        assert("sabre"@.len() == 5 && "sabre"@[0] == 's');
        assert("tx1"@.len() == 3);
        assert("debug"@.len() == 5 && "debug"@[0] == 'd');
        assert("release"@.len() == 7);
    }

    /// The name of a scope names that scope.
    pub proof fn lemma_named_name(v: LayerScope)
        ensures
            Self::named(v.name()) == Some(v),
    {
        let w = choose|w: LayerScope| w.name() == v.name();
        Self::lemma_name_injective(w, v);
    }

    /// A sequence of characters names a scope exactly when it is that
    /// scope's name; it names none exactly when it is no scope's name.
    pub proof fn lemma_named_exact(s: Seq<char>)
        ensures
            forall|v: LayerScope| Self::named(s) == Some(v) <==> s == v.name(),
            Self::named(s).is_none() <==> forall|v: LayerScope| s != v.name(),
    {
        assert forall|v: LayerScope| s == v.name() implies Self::named(s) == Some(v) by {
            Self::lemma_named_name(v);
        }
    }

    /// The name under which a section for this scope is written.
    pub fn full_name(&self) -> (r: &'static str)
        ensures
            r@ == self.name(),
    {
        match self {
            LayerScope::Global => "global",
            LayerScope::Target(t) => t.full_name(),
            LayerScope::Platform(p) => p.full_name(),
            LayerScope::Profile(b) => b.full_name(),
        }
    }

    /// Reads the name of a section. The match is exact.
    pub fn parse(s: &str) -> (r: Option<LayerScope>)
        ensures
            r == Self::named(s@),
    {
        proof {
            Self::lemma_named_exact(s@);
            SupportedTarget::lemma_named_exact(s@);
            SupportedPlatform::lemma_named_exact(s@);
            BuildProfile::lemma_named_exact(s@);
        }
        if same_text(s, "global") {
            proof {
                Self::lemma_named_name(LayerScope::Global);
            }
            Some(LayerScope::Global)
        } else if let Ok(t) = SupportedTarget::parse(s) {
            proof {
                Self::lemma_named_name(LayerScope::Target(t));
            }
            Some(LayerScope::Target(t))
        } else if let Ok(p) = SupportedPlatform::parse(s) {
            proof {
                Self::lemma_named_name(LayerScope::Platform(p));
            }
            Some(LayerScope::Platform(p))
        } else if let Ok(b) = BuildProfile::parse(s) {
            proof {
                Self::lemma_named_name(LayerScope::Profile(b));
            }
            Some(LayerScope::Profile(b))
        } else {
            assert forall|v: LayerScope| s@ != v.name() by {
                match v {
                    LayerScope::Global => {},
                    LayerScope::Target(_) => {},
                    LayerScope::Platform(_) => {},
                    LayerScope::Profile(_) => {},
                }
            }
            None
        }
    }
}

/// The characters of an optional string.
pub open spec fn text_of(s: Option<String>) -> Option<Seq<char>> {
    match s {
        Some(s) => Some(s@),
        None => None,
    }
}

/// A property as it was written: its value may be any TOML value. Every
/// such property has a name.
#[derive(Debug, PartialEq)]
pub struct RawProperty {
    name: String,
    value: toml::Value,
}

/// Mathematical model of a [`RawProperty`]: its name, and the shape of its
/// value.
pub struct RawPropertyView {
    pub name: Seq<char>,
    pub shape: ShapeView,
}

impl View for RawProperty {
    type V = RawPropertyView;

    closed spec fn view(&self) -> RawPropertyView {
        RawPropertyView { name: self.name@, shape: toml_shape(self.value) }
    }
}

impl RawProperty {
    #[verifier::type_invariant]
    spec fn has_name(self) -> bool {
        self.name@.len() > 0
    }

    /// A property with the given name and value, unless the name is empty.
    pub fn new(name: String, value: toml::Value) -> (r: Option<RawProperty>)
        ensures
            match r {
                Some(p) => name@.len() > 0 && p@ == (RawPropertyView {
                    name: name@,
                    shape: toml_shape(value),
                }),
                None => name@.len() == 0,
            },
    {
        if name.as_str().is_empty() {
            None
        } else {
            Some(RawProperty { name, value })
        }
    }

    /// The name of the property, which is not empty.
    pub fn name(&self) -> (r: &String)
        ensures
            r@ == self@.name,
            r@.len() > 0,
    {
        proof {
            use_type_invariant(self);
        }
        &self.name
    }

    /// The value of the property.
    pub fn value(&self) -> (r: &toml::Value)
        ensures
            toml_shape(*r) == self@.shape,
    {
        &self.value
    }
}

/// A section as it was written.
#[derive(Debug, PartialEq)]
pub struct RawLayer {
    pub scope: LayerScope,
    pub artifact_path: Option<String>,
    pub target_specs_path: Option<String>,
    pub properties: Vec<RawProperty>,
}

/// Mathematical model of a [`RawLayer`].
pub struct RawLayerView {
    pub scope: LayerScope,
    pub artifact_path: Option<Seq<char>>,
    pub target_specs_path: Option<Seq<char>>,
    pub properties: Seq<RawPropertyView>,
}

impl View for RawLayer {
    type V = RawLayerView;

    open spec fn view(&self) -> RawLayerView {
        RawLayerView {
            scope: self.scope,
            artifact_path: text_of(self.artifact_path),
            target_specs_path: text_of(self.target_specs_path),
            properties: self.properties@.map_values(|p: RawProperty| p@),
        }
    }
}

/// A section whose properties are flat and differ in name.
#[derive(Debug, PartialEq)]
pub struct ConfigLayer {
    pub scope: LayerScope,
    pub artifact_path: Option<String>,
    pub target_specs_path: Option<String>,
    pub properties: Vec<FlatTomlProperty>,
}

/// Mathematical model of a [`ConfigLayer`].
pub struct LayerView {
    pub scope: LayerScope,
    pub artifact_path: Option<Seq<char>>,
    pub target_specs_path: Option<Seq<char>>,
    pub properties: Seq<PropertyView>,
}

impl View for ConfigLayer {
    type V = LayerView;

    open spec fn view(&self) -> LayerView {
        LayerView {
            scope: self.scope,
            artifact_path: text_of(self.artifact_path),
            target_specs_path: text_of(self.target_specs_path),
            properties: property_views(self.properties@),
        }
    }
}

impl ConfigLayer {
    /// A section is well formed when each property has a name and no name
    /// occurs twice.
    pub open spec fn wf(&self) -> bool {
        &&& named_properties(self@.properties)
        &&& distinct_names(self@.properties)
    }
}

/// Property `k` of a section is at fault: its value is an array or a table,
/// or an earlier property of the section has its name.
pub open spec fn faulty_at(props: Seq<RawPropertyView>, k: int) -> bool {
    ||| flat_of(props[k].shape) is Err
    ||| exists|i: int| 0 <= i < k && (#[trigger] props[i]).name == props[k].name
}

/// For each property of a section, whether it is at fault.
pub open spec fn faults(props: Seq<RawPropertyView>) -> Seq<bool> {
    Seq::new(props.len(), |k: int| faulty_at(props, k))
}

/// The index of the first property at fault, if there is one.
pub open spec fn first_fault(props: Seq<RawPropertyView>) -> Option<int> {
    first_true(faults(props))
}

/// The error that reports property `k` of a section: its nested value where
/// it has one, else its repeated name.
pub open spec fn fault_error(layer: RawLayerView, k: int) -> ResolutionErrorView {
    match flat_of(layer.properties[k].shape) {
        Err(kind) => ResolutionErrorView::UnsupportedNestedValue {
            scope: layer.scope,
            name: layer.properties[k].name,
            found: kind,
        },
        Ok(_) => ResolutionErrorView::DuplicatePropertyName {
            scope: layer.scope,
            name: layer.properties[k].name,
        },
    }
}

/// The properties of a section, each with its value narrowed to a flat one.
pub open spec fn flat_properties(props: Seq<RawPropertyView>) -> Seq<PropertyView> {
    Seq::new(
        props.len(),
        |k: int| PropertyView { name: props[k].name, value: flat_of(props[k].shape).unwrap() },
    )
}

/// What checking a section gives: the error for its first property at fault,
/// or the same section with flat values.
pub open spec fn checked_layer(layer: RawLayerView) -> Result<LayerView, ResolutionErrorView> {
    match first_fault(layer.properties) {
        Some(k) => Err(fault_error(layer, k)),
        None => Ok(
            LayerView {
                scope: layer.scope,
                artifact_path: layer.artifact_path,
                target_specs_path: layer.target_specs_path,
                properties: flat_properties(layer.properties),
            },
        ),
    }
}

/// The model of the outcome of checking a section.
pub open spec fn layer_result_view(r: Result<ConfigLayer, ResolutionError>) -> Result<
    LayerView,
    ResolutionErrorView,
> {
    match r {
        Ok(l) => Ok(l@),
        Err(e) => Err(e@),
    }
}

impl ConfigLayer {
    /// Checks a section as it was written and narrows its values. The first
    /// property at fault ends the check: a nested value is reported as such,
    /// and otherwise the property repeats the name of an earlier one.
    pub fn from_raw(raw: &RawLayer) -> (r: Result<ConfigLayer, ResolutionError>)
        ensures
            layer_result_view(r) == checked_layer(raw@),
            r matches Ok(layer) ==> layer.wf(),
    {
        let mut properties: Vec<FlatTomlProperty> = Vec::new();
        let mut k: usize = 0;
        proof {
            lemma_first_true(faults(raw@.properties));
        }
        while k < raw.properties.len()
            invariant
                k <= raw.properties.len(),
                properties.len() == k,
                forall|i: int| 0 <= i < k ==> (#[trigger] properties[i]).wf(),
                forall|i: int| 0 <= i < k ==> !faulty_at(raw@.properties, i),
                forall|i: int|
                    0 <= i < k ==> (#[trigger] properties[i])@ == flat_properties(raw@.properties)[i],
            decreases raw.properties.len() - k,
        {
            let p = &raw.properties[k];
            assert(raw@.properties[k as int] == p@);
            match FlatTomlValue::from_toml(p.value()) {
                Err(kind) => {
                    assert(is_first_true(faults(raw@.properties), k as int));
                    return Err(
                        ResolutionError::UnsupportedNestedValue {
                            scope: raw.scope,
                            name: p.name().clone(),
                            found: kind,
                        },
                    );
                },
                Ok(value) => {
                    if find_property(&properties, p.name().as_str()).is_some() {
                        assert(is_first_true(faults(raw@.properties), k as int));
                        return Err(
                            ResolutionError::DuplicatePropertyName {
                                scope: raw.scope,
                                name: p.name().clone(),
                            },
                        );
                    }
                    assert forall|i: int| 0 <= i < k implies (#[trigger] raw@.properties[i]).name
                        != p@.name by {
                        assert(properties[i]@ == flat_properties(raw@.properties)[i]);
                    }
                    properties.push(FlatTomlProperty::new(p.name().clone(), value));
                },
            }
            k += 1;
        }
        let layer = ConfigLayer {
            scope: raw.scope,
            artifact_path: raw.artifact_path.clone(),
            target_specs_path: raw.target_specs_path.clone(),
            properties,
        };
        assert(layer@.properties =~= flat_properties(raw@.properties));
        assert forall|i: int| 0 <= i < layer@.properties.len() implies (#[trigger] layer@.properties[i]).name.len()
            > 0 by {
            assert(layer.properties[i].wf());
        }
        assert forall|i: int, j: int| 0 <= i < j < layer@.properties.len() implies layer@.properties[i].name
            != layer@.properties[j].name by {
            assert(!faulty_at(raw@.properties, j));
        }
        Ok(layer)
    }
}

/// A layered configuration as it was written: its sections, in the order in
/// which they were given.
#[derive(Debug, PartialEq)]
pub struct RawConfig {
    pub layers: Vec<RawLayer>,
}

impl View for RawConfig {
    type V = Seq<RawLayerView>;

    open spec fn view(&self) -> Seq<RawLayerView> {
        self.layers@.map_values(|l: RawLayer| l@)
    }
}

/// A layered configuration that has been checked: each section is well
/// formed, and no two are written for the same scope.
#[derive(Debug, PartialEq)]
pub struct LayeredConfig {
    pub layers: Vec<ConfigLayer>,
}

impl View for LayeredConfig {
    type V = Seq<LayerView>;

    open spec fn view(&self) -> Seq<LayerView> {
        self.layers@.map_values(|l: ConfigLayer| l@)
    }
}

/// No two sections of the sequence are written for the same scope.
pub open spec fn distinct_scopes(layers: Seq<LayerView>) -> bool {
    forall|i: int, j: int| 0 <= i < j < layers.len() ==> layers[i].scope != layers[j].scope
}

impl LayeredConfig {
    pub open spec fn wf(&self) -> bool {
        &&& forall|i: int| 0 <= i < self.layers.len() ==> (#[trigger] self.layers[i]).wf()
        &&& distinct_scopes(self@)
    }
}

/// Section `j` is written for the scope of an earlier section.
pub open spec fn repeats_scope_at(layers: Seq<RawLayerView>, j: int) -> bool {
    exists|i: int| 0 <= i < j && (#[trigger] layers[i]).scope == layers[j].scope
}

/// For each section, whether it repeats the scope of an earlier one.
pub open spec fn repeated_scopes(layers: Seq<RawLayerView>) -> Seq<bool> {
    Seq::new(layers.len(), |j: int| repeats_scope_at(layers, j))
}

/// For each section, whether one of its properties is at fault.
pub open spec fn faulty_layers(layers: Seq<RawLayerView>) -> Seq<bool> {
    Seq::new(layers.len(), |i: int| checked_layer(layers[i]) is Err)
}

/// What checking a whole configuration gives. A repeated scope is reported
/// first, by the first section that repeats one. Next comes the first section
/// with a property at fault, and what is reported is that section's error.
/// Otherwise every section comes back checked, in the order given.
pub open spec fn checked_config(layers: Seq<RawLayerView>) -> Result<
    Seq<LayerView>,
    ResolutionErrorView,
> {
    match first_true(repeated_scopes(layers)) {
        Some(j) => Err(ResolutionErrorView::DuplicateLayerDefinition { scope: layers[j].scope }),
        None => match first_true(faulty_layers(layers)) {
            Some(i) => Err(checked_layer(layers[i])->Err_0),
            None => Ok(Seq::new(layers.len(), |i: int| checked_layer(layers[i])->Ok_0)),
        },
    }
}

/// The model of the outcome of checking a configuration.
pub open spec fn config_result_view(r: Result<LayeredConfig, ResolutionError>) -> Result<
    Seq<LayerView>,
    ResolutionErrorView,
> {
    match r {
        Ok(c) => Ok(c@),
        Err(e) => Err(e@),
    }
}

impl RawConfig {
    /// The first section that is written for the scope of an earlier one.
    pub fn find_repeated_scope(&self) -> (r: Option<usize>)
        ensures
            match r {
                Some(j) => first_true(repeated_scopes(self@)) == Some(j as int),
                None => first_true(repeated_scopes(self@)).is_none(),
            },
    {
        let mut j: usize = 0;
        while j < self.layers.len()
            invariant
                j <= self.layers.len(),
                forall|m: int| 0 <= m < j ==> !repeats_scope_at(self@, m),
            decreases self.layers.len() - j,
        {
            let mut i: usize = 0;
            while i < j
                invariant
                    i <= j < self.layers.len(),
                    forall|m: int| 0 <= m < j ==> !repeats_scope_at(self@, m),
                    forall|m: int| 0 <= m < i ==> (#[trigger] self@[m]).scope != self@[j as int].scope,
                decreases j - i,
            {
                if self.layers[i].scope == self.layers[j].scope {
                    proof {
                        assert(self@[i as int].scope == self@[j as int].scope);
                        assert(is_first_true(repeated_scopes(self@), j as int));
                        lemma_first_true(repeated_scopes(self@));
                    }
                    return Some(j);
                }
                i += 1;
            }
            j += 1;
        }
        proof {
            lemma_first_true(repeated_scopes(self@));
        }
        None
    }

    /// Checks a configuration as it was written: that no scope has two
    /// sections, and then each section in turn.
    pub fn check(&self) -> (r: Result<LayeredConfig, ResolutionError>)
        ensures
            config_result_view(r) == checked_config(self@),
            r matches Ok(config) ==> config.wf(),
    {
        if let Some(j) = self.find_repeated_scope() {
            return Err(ResolutionError::DuplicateLayerDefinition { scope: self.layers[j].scope });
        }
        let mut layers: Vec<ConfigLayer> = Vec::new();
        let mut k: usize = 0;
        while k < self.layers.len()
            invariant
                first_true(repeated_scopes(self@)).is_none(),
                k <= self.layers.len(),
                layers.len() == k,
                forall|i: int| 0 <= i < k ==> checked_layer(#[trigger] self@[i]) is Ok,
                forall|i: int|
                    0 <= i < k ==> (#[trigger] layers[i])@ == checked_layer(self@[i])->Ok_0 && layers[i].wf(),
            decreases self.layers.len() - k,
        {
            assert(self@[k as int] == self.layers[k as int]@);
            match ConfigLayer::from_raw(&self.layers[k]) {
                Err(e) => {
                    proof {
                        assert(is_first_true(faulty_layers(self@), k as int));
                        lemma_first_true(faulty_layers(self@));
                    }
                    return Err(e);
                },
                Ok(layer) => {
                    layers.push(layer);
                },
            }
            k += 1;
        }
        let config = LayeredConfig { layers };
        proof {
            lemma_first_true(repeated_scopes(self@));
            lemma_first_true(faulty_layers(self@));
        }
        assert(config@ =~= Seq::new(self@.len(), |i: int| checked_layer(self@[i])->Ok_0));
        assert forall|i: int, j: int| 0 <= i < j < config@.len() implies config@[i].scope
            != config@[j].scope by {
            assert(!repeated_scopes(self@)[j]);
            assert(config@[i] == checked_layer(self@[i])->Ok_0);
            assert(config@[j] == checked_layer(self@[j])->Ok_0);
        }
        Ok(config)
    }
}

} // verus!
