//! The resolver: from a layered configuration and a request for one target,
//! platform and build profile to a single resolved configuration.

use crate::error::{unknown_identifier, RequiredPath, ResolutionError, ResolutionErrorView};
use crate::identifiers::{BuildProfile, SupportedPlatform, SupportedTarget};
use crate::layer::{
    checked_config, ConfigLayer, LayerScope, LayerView, LayeredConfig, RawConfig, RawLayerView,
};
use crate::properties::{
    distinct_names, find_property, has_name, lemma_overlaid, lemma_property_map_index,
    named_properties, overlaid, overlay_properties, property_map, property_views,
};
use crate::search::{first_true, is_first_true, lemma_first_true};
use crate::value::{FlatTomlProperty, FlatTomlValue, FlatValueView, PropertyView};
use vstd::prelude::*;

verus! {

/// The model of a section that may be absent.
pub open spec fn layer_view(layer: Option<&ConfigLayer>) -> Option<LayerView> {
    match layer {
        Some(l) => Some(l@),
        None => None,
    }
}

/// The first section written for a scope, if there is one.
pub open spec fn layer_of(layers: Seq<LayerView>, scope: LayerScope) -> Option<LayerView> {
    match first_true(Seq::new(layers.len(), |i: int| layers[i].scope == scope)) {
        Some(i) => Some(layers[i]),
        None => None,
    }
}

/// The properties of a section, in the order in which they were written;
/// none where the section is absent.
pub open spec fn listed(layer: Option<LayerView>) -> Seq<PropertyView> {
    match layer {
        Some(l) => l.properties,
        None => Seq::empty(),
    }
}

/// What a section gives each name; nothing where the section is absent.
pub open spec fn properties_of(layer: Option<LayerView>) -> Map<Seq<char>, FlatValueView> {
    property_map(listed(layer))
}

/// What a section gives for one of the two paths.
pub open spec fn path_of(layer: Option<LayerView>, which: RequiredPath) -> Option<Seq<char>> {
    match layer {
        Some(l) => match which {
            RequiredPath::Artifact => l.artifact_path,
            RequiredPath::TargetSpecs => l.target_specs_path,
        },
        None => None,
    }
}

/// The first of two optional values that is there.
pub open spec fn first_some<T>(a: Option<T>, b: Option<T>) -> Option<T> {
    if a is Some {
        a
    } else {
        b
    }
}

/// The properties of a resolved configuration: those of the global section,
/// with the target's laid over them, then the platform's, then the
/// profile's. A name stands where it was first given.
pub open spec fn merged_properties(
    layers: Seq<LayerView>,
    target: SupportedTarget,
    platform: SupportedPlatform,
    profile: BuildProfile,
) -> Seq<PropertyView> {
    overlaid(
        overlaid(
            overlaid(
                overlaid(Seq::empty(), listed(layer_of(layers, LayerScope::Global))),
                listed(layer_of(layers, LayerScope::Target(target))),
            ),
            listed(layer_of(layers, LayerScope::Platform(platform))),
        ),
        listed(layer_of(layers, LayerScope::Profile(profile))),
    )
}

/// The mapping that the properties of a resolved configuration are meant to
/// stand for: what the global section gives each name, overridden name by
/// name by the target's section, then the platform's, then the profile's.
pub open spec fn merged_mapping(
    layers: Seq<LayerView>,
    target: SupportedTarget,
    platform: SupportedPlatform,
    profile: BuildProfile,
) -> Map<Seq<char>, FlatValueView> {
    properties_of(layer_of(layers, LayerScope::Global)).union_prefer_right(
        properties_of(layer_of(layers, LayerScope::Target(target))),
    ).union_prefer_right(
        properties_of(layer_of(layers, LayerScope::Platform(platform))),
    ).union_prefer_right(properties_of(layer_of(layers, LayerScope::Profile(profile))))
}

/// One of the two paths of a resolved configuration: the profile's where it
/// gives one, else the platform's, else the target's, else the global one.
pub open spec fn chosen_path(
    layers: Seq<LayerView>,
    target: SupportedTarget,
    platform: SupportedPlatform,
    profile: BuildProfile,
    which: RequiredPath,
) -> Option<Seq<char>> {
    first_some(
        path_of(layer_of(layers, LayerScope::Profile(profile)), which),
        first_some(
            path_of(layer_of(layers, LayerScope::Platform(platform)), which),
            first_some(
                path_of(layer_of(layers, LayerScope::Target(target)), which),
                path_of(layer_of(layers, LayerScope::Global), which),
            ),
        ),
    )
}

/// The configuration of one target, platform and build profile, resolved
/// from a layered configuration.
#[derive(Clone, Debug, PartialEq)]
pub struct Fel4Config {
    pub artifact_path: String,
    pub target_specs_path: String,
    pub target: SupportedTarget,
    pub platform: SupportedPlatform,
    pub build_profile: BuildProfile,
    /// The merged properties. No name occurs twice.
    pub properties: Vec<FlatTomlProperty>,
}

/// Mathematical model of a [`Fel4Config`].
pub struct ConfigView {
    pub artifact_path: Seq<char>,
    pub target_specs_path: Seq<char>,
    pub target: SupportedTarget,
    pub platform: SupportedPlatform,
    pub build_profile: BuildProfile,
    pub properties: Seq<PropertyView>,
}

impl ConfigView {
    /// The mapping from names to values that the properties stand for.
    pub open spec fn mapping(self) -> Map<Seq<char>, FlatValueView> {
        property_map(self.properties)
    }
}

impl View for Fel4Config {
    type V = ConfigView;

    open spec fn view(&self) -> ConfigView {
        ConfigView {
            artifact_path: self.artifact_path@,
            target_specs_path: self.target_specs_path@,
            target: self.target,
            platform: self.platform,
            build_profile: self.build_profile,
            properties: property_views(self.properties@),
        }
    }
}

impl Fel4Config {
    /// A resolved configuration is well formed when each of its properties
    /// has a name and no name occurs twice.
    pub open spec fn wf(&self) -> bool {
        &&& named_properties(property_views(self.properties@))
        &&& distinct_names(property_views(self.properties@))
    }

    /// The value of a property, if the configuration has it: that of the
    /// first property of the name. In a well-formed configuration this is the
    /// value that the mapping gives the name.
    pub fn get(&self, name: &str) -> (r: Option<&FlatTomlValue>)
        ensures
            match r {
                Some(v) => first_true(has_name(self@.properties, name@)) matches Some(i)
                    && self@.properties[i].value == v@,
                None => first_true(has_name(self@.properties, name@)).is_none(),
            },
            self.wf() ==> match r {
                Some(v) => self@.mapping().dom().contains(name@) && self@.mapping()[name@] == v@,
                None => !self@.mapping().dom().contains(name@),
            },
    {
        match find_property(&self.properties, name) {
            Some(i) => {
                proof {
                    if self.wf() {
                        lemma_property_map_index(self@.properties, i as int);
                    }
                }
                Some(&self.properties[i].value)
            },
            None => {
                assert forall|i: int| 0 <= i < self.properties.len() implies (
                #[trigger] self@.properties[i]).name != name@ by {
                    assert(self@.properties[i] == self.properties[i]@);
                }
                None
            },
        }
    }
}

/// What resolving a checked configuration gives: the configuration with the
/// chosen paths and the merged properties, or the first of the two paths that
/// no selected section gives, the artifact path before the other.
pub open spec fn resolved(
    layers: Seq<LayerView>,
    target: SupportedTarget,
    platform: SupportedPlatform,
    profile: BuildProfile,
) -> Result<ConfigView, ResolutionErrorView> {
    match chosen_path(layers, target, platform, profile, RequiredPath::Artifact) {
        None => Err(ResolutionErrorView::MissingRequiredPath { path: RequiredPath::Artifact }),
        Some(artifact_path) => match chosen_path(
            layers,
            target,
            platform,
            profile,
            RequiredPath::TargetSpecs,
        ) {
            None => Err(
                ResolutionErrorView::MissingRequiredPath { path: RequiredPath::TargetSpecs },
            ),
            Some(target_specs_path) => Ok(
                ConfigView {
                    artifact_path,
                    target_specs_path,
                    target,
                    platform,
                    build_profile: profile,
                    properties: merged_properties(layers, target, platform, profile),
                },
            ),
        },
    }
}

/// What resolving a configuration as it was written gives: the error of its
/// check, or what resolving the checked configuration gives.
pub open spec fn resolution(
    raw: Seq<RawLayerView>,
    target: SupportedTarget,
    platform: SupportedPlatform,
    profile: BuildProfile,
) -> Result<ConfigView, ResolutionErrorView> {
    match checked_config(raw) {
        Err(e) => Err(e),
        Ok(layers) => resolved(layers, target, platform, profile),
    }
}

/// The model of the outcome of a resolution.
pub open spec fn resolution_view(r: Result<Fel4Config, ResolutionError>) -> Result<
    ConfigView,
    ResolutionErrorView,
> {
    match r {
        Ok(c) => Ok(c@),
        Err(e) => Err(e@),
    }
}

/// Lays the properties of a section over those gathered so far. An absent
/// section changes nothing.
pub fn overlay_layer(props: &mut Vec<FlatTomlProperty>, layer: Option<&ConfigLayer>)
    ensures
        property_views(final(props)@) == overlaid(
            property_views(old(props)@),
            listed(layer_view(layer)),
        ),
{
    if let Some(l) = layer {
        overlay_properties(props, &l.properties);
    }
}

/// What a section gives for one of the two paths, if the section is there
/// and gives it.
pub fn layer_path<'a>(layer: Option<&'a ConfigLayer>, which: RequiredPath) -> (r: Option<&'a String>)
    ensures
        path_of(layer_view(layer), which) == match r {
            Some(s) => Some(s@),
            None => None,
        },
{
    match layer {
        Some(l) => match which {
            RequiredPath::Artifact => l.artifact_path.as_ref(),
            RequiredPath::TargetSpecs => l.target_specs_path.as_ref(),
        },
        None => None,
    }
}

/// The section found for a scope, if any, is one of the sections.
pub proof fn lemma_layer_of_member(layers: Seq<LayerView>, scope: LayerScope)
    ensures
        layer_of(layers, scope) matches Some(l) ==> exists|i: int|
            0 <= i < layers.len() && #[trigger] layers[i] == l && l.scope == scope,
        layer_of(layers, scope).is_none() ==> forall|i: int|
            0 <= i < layers.len() ==> (#[trigger] layers[i]).scope != scope,
{
    let flags = Seq::new(layers.len(), |i: int| layers[i].scope == scope);
    lemma_first_true(flags);
    match first_true(flags) {
        Some(i) => {
            assert(is_first_true(flags, i));
            assert(layers[i] == layers[i]);
        },
        None => {
            assert forall|i: int| 0 <= i < layers.len() implies (#[trigger] layers[i]).scope
                != scope by {
                assert(!flags[i]);
            }
        },
    }
}

/// In every section of the sequence, no name occurs twice.
pub open spec fn distinct_in_layers(layers: Seq<LayerView>) -> bool {
    forall|i: int| 0 <= i < layers.len() ==> distinct_names((#[trigger] layers[i]).properties)
}

/// In every section of the sequence, each property has a name.
pub open spec fn named_in_layers(layers: Seq<LayerView>) -> bool {
    forall|i: int| 0 <= i < layers.len() ==> named_properties((#[trigger] layers[i]).properties)
}

/// Where no section gives a name twice, the merged properties give no name
/// twice either, and they stand for the merged mapping. Where each property
/// of each section has a name, so has each merged property.
pub proof fn lemma_merged_properties(
    layers: Seq<LayerView>,
    target: SupportedTarget,
    platform: SupportedPlatform,
    profile: BuildProfile,
)
    requires
        distinct_in_layers(layers),
    ensures
        distinct_names(merged_properties(layers, target, platform, profile)),
        property_map(merged_properties(layers, target, platform, profile)) == merged_mapping(
            layers,
            target,
            platform,
            profile,
        ),
        named_in_layers(layers) ==> named_properties(
            merged_properties(layers, target, platform, profile),
        ),
{
    let global = listed(layer_of(layers, LayerScope::Global));
    let of_target = listed(layer_of(layers, LayerScope::Target(target)));
    let of_platform = listed(layer_of(layers, LayerScope::Platform(platform)));
    let of_profile = listed(layer_of(layers, LayerScope::Profile(profile)));
    lemma_layer_of_member(layers, LayerScope::Global);
    lemma_layer_of_member(layers, LayerScope::Target(target));
    lemma_layer_of_member(layers, LayerScope::Platform(platform));
    lemma_layer_of_member(layers, LayerScope::Profile(profile));
    let first = overlaid(Seq::empty(), global);
    let second = overlaid(first, of_target);
    let third = overlaid(second, of_platform);
    lemma_overlaid(Seq::empty(), global);
    lemma_overlaid(first, of_target);
    lemma_overlaid(second, of_platform);
    lemma_overlaid(third, of_profile);
    assert(property_map(Seq::<PropertyView>::empty()) =~= Map::empty());
    assert(Map::<Seq<char>, FlatValueView>::empty().union_prefer_right(property_map(global))
        =~= property_map(global));
}

impl LayeredConfig {
    /// The first section written for a scope, if there is one.
    pub fn layer(&self, scope: LayerScope) -> (r: Option<&ConfigLayer>)
        ensures
            layer_view(r) == layer_of(self@, scope),
            self.wf() ==> (r matches Some(l) ==> l.wf()),
    {
        let ghost flags = Seq::new(self@.len(), |i: int| self@[i].scope == scope);
        let mut i: usize = 0;
        while i < self.layers.len()
            invariant
                i <= self.layers.len(),
                flags == Seq::new(self@.len(), |i: int| self@[i].scope == scope),
                forall|k: int| 0 <= k < i ==> !flags[k],
            decreases self.layers.len() - i,
        {
            assert(self@[i as int] == self.layers[i as int]@);
            if self.layers[i].scope == scope {
                proof {
                    assert(is_first_true(flags, i as int));
                    lemma_first_true(flags);
                }
                return Some(&self.layers[i]);
            }
            i += 1;
        }
        proof {
            lemma_first_true(flags);
        }
        None
    }

    /// The path that the selected sections give, by precedence.
    fn path(
        &self,
        target: SupportedTarget,
        platform: SupportedPlatform,
        profile: BuildProfile,
        which: RequiredPath,
    ) -> (r: Option<String>)
        ensures
            chosen_path(self@, target, platform, profile, which) == match r {
                Some(s) => Some(s@),
                None => None,
            },
    {
        if let Some(s) = layer_path(self.layer(LayerScope::Profile(profile)), which) {
            Some(s.clone())
        } else if let Some(s) = layer_path(self.layer(LayerScope::Platform(platform)), which) {
            Some(s.clone())
        } else if let Some(s) = layer_path(self.layer(LayerScope::Target(target)), which) {
            Some(s.clone())
        } else if let Some(s) = layer_path(self.layer(LayerScope::Global), which) {
            Some(s.clone())
        } else {
            None
        }
    }

    /// Resolves the configuration of one target, platform and build profile.
    /// The sections for the request are laid over the global one, the
    /// target's first and the profile's last, and both paths must be given by
    /// one of them.
    pub fn resolve(
        &self,
        target: SupportedTarget,
        platform: SupportedPlatform,
        profile: BuildProfile,
    ) -> (r: Result<Fel4Config, ResolutionError>)
        ensures
            resolution_view(r) == resolved(self@, target, platform, profile),
            self.wf() ==> (r matches Ok(config) ==> config.wf()),
    {
        let artifact_path = match self.path(target, platform, profile, RequiredPath::Artifact) {
            Some(s) => s,
            None => {
                return Err(ResolutionError::MissingRequiredPath { path: RequiredPath::Artifact });
            },
        };
        let target_specs_path = match self.path(
            target,
            platform,
            profile,
            RequiredPath::TargetSpecs,
        ) {
            Some(s) => s,
            None => {
                return Err(
                    ResolutionError::MissingRequiredPath { path: RequiredPath::TargetSpecs },
                );
            },
        };
        let global = self.layer(LayerScope::Global);
        let of_target = self.layer(LayerScope::Target(target));
        let of_platform = self.layer(LayerScope::Platform(platform));
        let of_profile = self.layer(LayerScope::Profile(profile));
        let mut properties: Vec<FlatTomlProperty> = Vec::new();
        assert(property_views(properties@) =~= Seq::empty());
        overlay_layer(&mut properties, global);
        overlay_layer(&mut properties, of_target);
        overlay_layer(&mut properties, of_platform);
        overlay_layer(&mut properties, of_profile);
        proof {
            if self.wf() {
                assert forall|i: int| 0 <= i < self@.len() implies named_properties(
                    (#[trigger] self@[i]).properties,
                ) && distinct_names(self@[i].properties) by {
                    assert(self.layers[i].wf());
                }
                lemma_merged_properties(self@, target, platform, profile);
            }
        }
        Ok(
            Fel4Config {
                artifact_path,
                target_specs_path,
                target,
                platform,
                build_profile: profile,
                properties,
            },
        )
    }
}

/// Resolves the configuration of one target, platform and build profile from
/// a layered configuration as it was written. The configuration is checked
/// first; its sections are then merged by precedence.
pub fn resolve(
    raw: &RawConfig,
    target: SupportedTarget,
    platform: SupportedPlatform,
    profile: BuildProfile,
) -> (r: Result<Fel4Config, ResolutionError>)
    ensures
        resolution_view(r) == resolution(raw@, target, platform, profile),
        r matches Ok(config) ==> config.wf(),
{
    match raw.check() {
        Err(e) => Err(e),
        Ok(layers) => layers.resolve(target, platform, profile),
    }
}

/// What resolving a request written in names gives: the first name that is
/// not in its set is reported, the target's before the platform's before the
/// profile's; otherwise the named request is resolved.
pub open spec fn named_resolution(
    raw: Seq<RawLayerView>,
    target: Seq<char>,
    platform: Seq<char>,
    profile: Seq<char>,
) -> Result<ConfigView, ResolutionErrorView> {
    match SupportedTarget::parsed(target) {
        Err(e) => Err(unknown_identifier(e)),
        Ok(t) => match SupportedPlatform::parsed(platform) {
            Err(e) => Err(unknown_identifier(e)),
            Ok(p) => match BuildProfile::parsed(profile) {
                Err(e) => Err(unknown_identifier(e)),
                Ok(b) => resolution(raw, t, p, b),
            },
        },
    }
}

/// Resolves a request whose target, platform and build profile are given by
/// their canonical names.
pub fn resolve_named(raw: &RawConfig, target: &str, platform: &str, profile: &str) -> (r: Result<
    Fel4Config,
    ResolutionError,
>)
    ensures
        resolution_view(r) == named_resolution(raw@, target@, platform@, profile@),
        r matches Ok(config) ==> config.wf(),
{
    let t = match SupportedTarget::parse(target) {
        Ok(t) => t,
        Err(e) => {
            return Err(ResolutionError::from_parse_error(e));
        },
    };
    let p = match SupportedPlatform::parse(platform) {
        Ok(p) => p,
        Err(e) => {
            return Err(ResolutionError::from_parse_error(e));
        },
    };
    let b = match BuildProfile::parse(profile) {
        Ok(b) => b,
        Err(e) => {
            return Err(ResolutionError::from_parse_error(e));
        },
    };
    resolve(raw, t, p, b)
}

} // verus!
