//! What holds of every resolution, stated over the models of the
//! configuration and of its outcome.

use crate::error::{RequiredPath, ResolutionError, ResolutionErrorView};
use crate::identifiers::{BuildProfile, SupportedPlatform, SupportedTarget};
use crate::layer::{
    checked_config, checked_layer, faults, faulty_at, faulty_layers, flat_properties,
    repeated_scopes, LayerScope, LayerView, RawConfig, RawLayerView,
};
use crate::properties::{distinct_names, lemma_property_map_index, property_map};
use crate::resolver::{
    chosen_path, distinct_in_layers, layer_of, lemma_layer_of_member, lemma_merged_properties,
    merged_properties, path_of, properties_of, resolution, resolution_view, resolved, ConfigView,
    Fel4Config,
};
use crate::search::{first_true, is_first_true, lemma_first_true};
use crate::value::{flat_of, FlatValueView, NestedKind};
use vstd::prelude::*;

verus! {

/// Whether a request for one target, platform and build profile selects the
/// sections of a scope.
pub open spec fn selects(
    scope: LayerScope,
    target: SupportedTarget,
    platform: SupportedPlatform,
    profile: BuildProfile,
) -> bool {
    ||| scope == LayerScope::Global
    ||| scope == LayerScope::Target(target)
    ||| scope == LayerScope::Platform(platform)
    ||| scope == LayerScope::Profile(profile)
}

/// Resolving the same request on the same configuration gives the same
/// outcome every time: two outcomes that the resolver may give are equal.
pub proof fn lemma_resolution_repeats(
    raw: RawConfig,
    target: SupportedTarget,
    platform: SupportedPlatform,
    profile: BuildProfile,
    first: Result<Fel4Config, ResolutionError>,
    second: Result<Fel4Config, ResolutionError>,
)
    requires
        resolution_view(first) == resolution(raw@, target, platform, profile),
        resolution_view(second) == resolution(raw@, target, platform, profile),
    ensures
        resolution_view(first) == resolution_view(second),
{
}

/// Precedence. Where no section gives a name twice, a resolved configuration
/// has a property exactly when one of the selected sections gives it, and its
/// value is that of the profile's section where that gives the name, else
/// that of the platform's, else that of the target's, else that of the
/// global section.
pub proof fn lemma_precedence(
    layers: Seq<LayerView>,
    target: SupportedTarget,
    platform: SupportedPlatform,
    profile: BuildProfile,
    name: Seq<char>,
)
    requires
        distinct_in_layers(layers),
    ensures
        ({
            let global = properties_of(layer_of(layers, LayerScope::Global));
            let of_target = properties_of(layer_of(layers, LayerScope::Target(target)));
            let of_platform = properties_of(layer_of(layers, LayerScope::Platform(platform)));
            let of_profile = properties_of(layer_of(layers, LayerScope::Profile(profile)));
            let merged = property_map(merged_properties(layers, target, platform, profile));
            &&& merged.dom().contains(name) <==> global.dom().contains(name)
                || of_target.dom().contains(name) || of_platform.dom().contains(name)
                || of_profile.dom().contains(name)
            &&& merged.dom().contains(name) ==> merged[name] == if of_profile.dom().contains(name) {
                of_profile[name]
            } else if of_platform.dom().contains(name) {
                of_platform[name]
            } else if of_target.dom().contains(name) {
                of_target[name]
            } else {
                global[name]
            }
        }),
{
    lemma_merged_properties(layers, target, platform, profile);
}

/// The sections of a configuration that passes its check give no name
/// twice.
pub proof fn lemma_checked_distinct(raw: Seq<RawLayerView>)
    requires
        checked_config(raw) is Ok,
    ensures
        distinct_in_layers(checked_config(raw)->Ok_0),
{
    let layers = checked_config(raw)->Ok_0;
    lemma_first_true(faulty_layers(raw));
    assert forall|i: int| 0 <= i < layers.len() implies distinct_names(
        (#[trigger] layers[i]).properties,
    ) by {
        let props = raw[i].properties;
        assert(!faulty_layers(raw)[i]);
        lemma_first_true(faults(props));
        assert forall|a: int, b: int| 0 <= a < b < props.len() implies flat_properties(
            props,
        )[a].name != flat_properties(props)[b].name by {
            assert(!faults(props)[b]);
        }
    }
}

/// Duplicate sections. Where two sections are written for the same scope,
/// resolution fails, whatever is requested, and the error names a scope that
/// two sections are written for.
pub proof fn lemma_duplicate_layer_fails(
    raw: Seq<RawLayerView>,
    i: int,
    j: int,
    target: SupportedTarget,
    platform: SupportedPlatform,
    profile: BuildProfile,
)
    requires
        0 <= i < j < raw.len(),
        raw[i].scope == raw[j].scope,
    ensures
        resolution(raw, target, platform, profile) matches Err(
            ResolutionErrorView::DuplicateLayerDefinition { scope },
        ) && exists|a: int, b: int|
            0 <= a < b < raw.len() && (#[trigger] raw[a]).scope == scope && (#[trigger] raw[b]).scope
                == scope,
{
    let flags = repeated_scopes(raw);
    lemma_first_true(flags);
    assert(flags[j]);
    let first = first_true(flags)->Some_0;
    assert(is_first_true(flags, first));
    let a = choose|a: int| 0 <= a < first && (#[trigger] raw[a]).scope == raw[first].scope;
    assert(raw[a].scope == raw[first].scope && raw[first].scope == raw[first].scope);
}

/// A resolution fails for a duplicate section only where two sections are
/// written for the scope that the error names.
pub proof fn lemma_duplicate_layer_reported(
    raw: Seq<RawLayerView>,
    target: SupportedTarget,
    platform: SupportedPlatform,
    profile: BuildProfile,
)
    ensures
        resolution(raw, target, platform, profile) matches Err(
            ResolutionErrorView::DuplicateLayerDefinition { scope },
        ) ==> exists|a: int, b: int|
            0 <= a < b < raw.len() && (#[trigger] raw[a]).scope == scope && (#[trigger] raw[b]).scope
                == scope,
{
    if let Err(ResolutionErrorView::DuplicateLayerDefinition { scope }) = resolution(
        raw,
        target,
        platform,
        profile,
    ) {
        lemma_first_true(repeated_scopes(raw));
        lemma_first_true(faulty_layers(raw));
        match first_true(repeated_scopes(raw)) {
            Some(j) => {
                assert(is_first_true(repeated_scopes(raw), j));
                let a = choose|a: int| 0 <= a < j && (#[trigger] raw[a]).scope == raw[j].scope;
                lemma_duplicate_layer_fails(raw, a, j, target, platform, profile);
            },
            None => {
                match first_true(faulty_layers(raw)) {
                    Some(i) => {
                        assert(is_first_true(faulty_layers(raw), i));
                        lemma_first_true(faults(raw[i].properties));
                    },
                    None => {},
                }
            },
        }
    }
}

/// Nested values. Where a property of any section is given an array or a
/// table, resolution fails, whatever is requested: the value is neither
/// flattened nor dropped.
pub proof fn lemma_nested_value_fails(
    raw: Seq<RawLayerView>,
    i: int,
    k: int,
    target: SupportedTarget,
    platform: SupportedPlatform,
    profile: BuildProfile,
)
    requires
        0 <= i < raw.len(),
        0 <= k < raw[i].properties.len(),
        flat_of(raw[i].properties[k].shape) is Err,
    ensures
        resolution(raw, target, platform, profile) is Err,
{
    lemma_first_true(faults(raw[i].properties));
    assert(faults(raw[i].properties)[k]);
    assert(checked_layer(raw[i]) is Err);
    lemma_first_true(faulty_layers(raw));
    assert(faulty_layers(raw)[i]);
}

/// Where no scope has two sections and the first property at fault in the
/// whole configuration holds a nested value, the error is the one for that
/// value, with the section's scope, the property's name and the kind of
/// value found.
pub proof fn lemma_nested_value_identified(
    raw: Seq<RawLayerView>,
    i: int,
    k: int,
    target: SupportedTarget,
    platform: SupportedPlatform,
    profile: BuildProfile,
)
    requires
        forall|a: int, b: int| 0 <= a < b < raw.len() ==> raw[a].scope != raw[b].scope,
        is_first_true(faulty_layers(raw), i),
        is_first_true(faults(raw[i].properties), k),
        flat_of(raw[i].properties[k].shape) is Err,
    ensures
        resolution(raw, target, platform, profile) == Err::<ConfigView, ResolutionErrorView>(
            ResolutionErrorView::UnsupportedNestedValue {
                scope: raw[i].scope,
                name: raw[i].properties[k].name,
                found: flat_of(raw[i].properties[k].shape)->Err_0,
            },
        ),
{
    lemma_first_true(repeated_scopes(raw));
    lemma_first_true(faulty_layers(raw));
    lemma_first_true(faults(raw[i].properties));
    assert forall|j: int| 0 <= j < raw.len() implies !repeated_scopes(raw)[j] by {
        if repeated_scopes(raw)[j] {
            let a = choose|a: int| 0 <= a < j && (#[trigger] raw[a]).scope == raw[j].scope;
            assert(raw[a].scope != raw[j].scope);
        }
    }
}

/// A resolution fails for a nested value only where the section of the scope
/// that the error names gives the property of that name an array or a table,
/// of the kind that the error names.
pub proof fn lemma_nested_value_reported(
    raw: Seq<RawLayerView>,
    target: SupportedTarget,
    platform: SupportedPlatform,
    profile: BuildProfile,
)
    ensures
        resolution(raw, target, platform, profile) matches Err(
            ResolutionErrorView::UnsupportedNestedValue { scope, name, found },
        ) ==> exists|i: int, k: int|
            0 <= i < raw.len() && 0 <= k < raw[i].properties.len() && raw[i].scope == scope
                && (#[trigger] raw[i].properties[k]).name == name && flat_of(
                raw[i].properties[k].shape,
            ) == Err::<FlatValueView, NestedKind>(found),
{
    if let Err(ResolutionErrorView::UnsupportedNestedValue { scope, name, found }) = resolution(
        raw,
        target,
        platform,
        profile,
    ) {
        lemma_first_true(repeated_scopes(raw));
        lemma_first_true(faulty_layers(raw));
        let i = first_true(faulty_layers(raw))->Some_0;
        assert(is_first_true(faulty_layers(raw), i));
        lemma_first_true(faults(raw[i].properties));
        let k = first_true(faults(raw[i].properties))->Some_0;
        assert(is_first_true(faults(raw[i].properties), k));
        assert(raw[i].properties[k].name == name);
    }
}

/// The sections of a checked configuration keep the scopes and the paths
/// that they were written with.
pub proof fn lemma_checked_keeps_paths(raw: Seq<RawLayerView>, i: int)
    requires
        checked_config(raw) is Ok,
        0 <= i < raw.len(),
    ensures
        checked_config(raw)->Ok_0.len() == raw.len(),
        checked_config(raw)->Ok_0[i].scope == raw[i].scope,
        checked_config(raw)->Ok_0[i].artifact_path == raw[i].artifact_path,
        checked_config(raw)->Ok_0[i].target_specs_path == raw[i].target_specs_path,
{
    lemma_first_true(faulty_layers(raw));
    assert(!faulty_layers(raw)[i]);
}

/// Whether a section as it was written gives one of the two paths.
pub open spec fn gives_path(layer: RawLayerView, which: RequiredPath) -> bool {
    match which {
        RequiredPath::Artifact => layer.artifact_path is Some,
        RequiredPath::TargetSpecs => layer.target_specs_path is Some,
    }
}

/// The outcome of a resolution that fails for want of a path.
pub open spec fn missing(path: RequiredPath) -> Result<ConfigView, ResolutionErrorView> {
    Err(ResolutionErrorView::MissingRequiredPath { path })
}

/// Missing paths. Where neither the global section nor a selected one gives
/// one of the two paths, resolution fails. Where the configuration passes its
/// check, the error names a missing path: the artifact path if that is
/// missing, and else the path to the target specifications.
pub proof fn lemma_missing_path_fails(
    raw: Seq<RawLayerView>,
    target: SupportedTarget,
    platform: SupportedPlatform,
    profile: BuildProfile,
    which: RequiredPath,
)
    requires
        forall|i: int|
            0 <= i < raw.len() && selects((#[trigger] raw[i]).scope, target, platform, profile)
                ==> !gives_path(raw[i], which),
    ensures
        resolution(raw, target, platform, profile) is Err,
        checked_config(raw) is Ok ==> resolution(raw, target, platform, profile) == missing(which)
            || resolution(raw, target, platform, profile) == missing(RequiredPath::Artifact),
{
    if checked_config(raw) is Ok {
        let layers = checked_config(raw)->Ok_0;
        assert forall|scope: LayerScope|
            selects(scope, target, platform, profile) implies path_of(
            #[trigger] layer_of(layers, scope),
            which,
        ).is_none() by {
            lemma_layer_of_member(layers, scope);
            if let Some(l) = layer_of(layers, scope) {
                let i = choose|i: int| 0 <= i < layers.len() && #[trigger] layers[i] == l && l.scope == scope;
                lemma_checked_keeps_paths(raw, i);
                assert(selects(raw[i].scope, target, platform, profile));
            }
        }
        assert(selects(LayerScope::Global, target, platform, profile));
        assert(selects(LayerScope::Target(target), target, platform, profile));
        assert(selects(LayerScope::Platform(platform), target, platform, profile));
        assert(selects(LayerScope::Profile(profile), target, platform, profile));
        assert(chosen_path(layers, target, platform, profile, which).is_none());
    }
}

/// A resolution fails for a missing path only where neither the global
/// section nor a selected one gives that path.
pub proof fn lemma_missing_path_reported(
    raw: Seq<RawLayerView>,
    target: SupportedTarget,
    platform: SupportedPlatform,
    profile: BuildProfile,
)
    ensures
        resolution(raw, target, platform, profile) matches Err(
            ResolutionErrorView::MissingRequiredPath { path },
        ) ==> forall|i: int|
            0 <= i < raw.len() && selects((#[trigger] raw[i]).scope, target, platform, profile)
                ==> !gives_path(raw[i], path),
{
    if let Err(ResolutionErrorView::MissingRequiredPath { path }) = resolution(
        raw,
        target,
        platform,
        profile,
    ) {
        lemma_first_true(repeated_scopes(raw));
        lemma_first_true(faulty_layers(raw));
        if checked_config(raw) is Err {
            let i = first_true(faulty_layers(raw))->Some_0;
            assert(is_first_true(faulty_layers(raw), i));
            lemma_first_true(faults(raw[i].properties));
            assert(false);
        }
        let layers = checked_config(raw)->Ok_0;
        assert(chosen_path(layers, target, platform, profile, path).is_none());
        assert forall|i: int|
            0 <= i < raw.len() && selects(
                (#[trigger] raw[i]).scope,
                target,
                platform,
                profile,
            ) implies !gives_path(raw[i], path) by {
            let scope = raw[i].scope;
            lemma_checked_keeps_paths(raw, i);
            lemma_layer_of_member(layers, scope);
            assert(layers[i].scope == scope);
            let l = layer_of(layers, scope)->Some_0;
            let j = choose|j: int| 0 <= j < layers.len() && #[trigger] layers[j] == l && l.scope == scope;
            lemma_checked_keeps_paths(raw, j);
            if i != j {
                assert(!repeated_scopes(raw)[i]);
                assert(!repeated_scopes(raw)[j]);
                if i < j {
                    assert(raw[i].scope == raw[j].scope);
                } else {
                    assert(raw[j].scope == raw[i].scope);
                }
                assert(false);
            }
        }
    }
}

/// In a checked configuration, the section found for the scope of a section
/// of the configuration is that section: no other is written for the scope.
pub proof fn lemma_layer_of_checked(raw: Seq<RawLayerView>, i: int)
    requires
        checked_config(raw) is Ok,
        0 <= i < raw.len(),
    ensures
        layer_of(checked_config(raw)->Ok_0, raw[i].scope) == Some(checked_config(raw)->Ok_0[i]),
{
    let layers = checked_config(raw)->Ok_0;
    let scope = raw[i].scope;
    lemma_first_true(repeated_scopes(raw));
    lemma_checked_keeps_paths(raw, i);
    lemma_layer_of_member(layers, scope);
    let l = layer_of(layers, scope)->Some_0;
    let j = choose|j: int| 0 <= j < layers.len() && #[trigger] layers[j] == l && l.scope == scope;
    lemma_checked_keeps_paths(raw, j);
    if i < j {
        assert(!repeated_scopes(raw)[j]);
        assert(raw[i].scope == raw[j].scope);
    } else if j < i {
        assert(!repeated_scopes(raw)[i]);
        assert(raw[j].scope == raw[i].scope);
    }
}

/// In a configuration that passes its check, what a section gives a name is
/// what was written for it: the flat value of the property of that name.
pub proof fn lemma_section_gives(raw: Seq<RawLayerView>, i: int, k: int)
    requires
        checked_config(raw) is Ok,
        0 <= i < raw.len(),
        0 <= k < raw[i].properties.len(),
    ensures
        flat_of(raw[i].properties[k].shape) is Ok,
        properties_of(layer_of(checked_config(raw)->Ok_0, raw[i].scope)).dom().contains(
            raw[i].properties[k].name,
        ),
        properties_of(layer_of(checked_config(raw)->Ok_0, raw[i].scope))[raw[i].properties[k].name]
            == flat_of(raw[i].properties[k].shape)->Ok_0,
{
    let props = raw[i].properties;
    lemma_layer_of_checked(raw, i);
    lemma_first_true(faulty_layers(raw));
    assert(!faulty_layers(raw)[i]);
    lemma_first_true(faults(props));
    assert forall|a: int, b: int| 0 <= a < b < props.len() implies flat_properties(props)[a].name
        != flat_properties(props)[b].name by {
        assert(!faults(props)[b]);
    }
    assert(!faults(props)[k]);
    lemma_property_map_index(flat_properties(props), k);
}

/// Success. Where no scope has two sections, no property is at fault and
/// each of the two paths is given by the global section or a selected one,
/// resolution succeeds.
pub proof fn lemma_resolution_succeeds(
    raw: Seq<RawLayerView>,
    target: SupportedTarget,
    platform: SupportedPlatform,
    profile: BuildProfile,
    artifact: int,
    target_specs: int,
)
    requires
        forall|a: int, b: int| 0 <= a < b < raw.len() ==> raw[a].scope != raw[b].scope,
        forall|i: int, k: int|
            0 <= i < raw.len() && 0 <= k < raw[i].properties.len() ==> !faulty_at(
                raw[i].properties,
                k,
            ),
        0 <= artifact < raw.len(),
        selects(raw[artifact].scope, target, platform, profile),
        gives_path(raw[artifact], RequiredPath::Artifact),
        0 <= target_specs < raw.len(),
        selects(raw[target_specs].scope, target, platform, profile),
        gives_path(raw[target_specs], RequiredPath::TargetSpecs),
    ensures
        resolution(raw, target, platform, profile) is Ok,
{
    lemma_first_true(repeated_scopes(raw));
    lemma_first_true(faulty_layers(raw));
    assert forall|j: int| 0 <= j < raw.len() implies !repeated_scopes(raw)[j] by {
        if repeated_scopes(raw)[j] {
            let a = choose|a: int| 0 <= a < j && (#[trigger] raw[a]).scope == raw[j].scope;
            assert(raw[a].scope != raw[j].scope);
        }
    }
    assert forall|i: int| 0 <= i < raw.len() implies !faulty_layers(raw)[i] by {
        lemma_first_true(faults(raw[i].properties));
        assert forall|k: int| 0 <= k < raw[i].properties.len() implies !faults(
            raw[i].properties,
        )[k] by {
            assert(!faulty_at(raw[i].properties, k));
        }
    }
    assert(checked_config(raw) is Ok);
    lemma_layer_of_checked(raw, artifact);
    lemma_checked_keeps_paths(raw, artifact);
    lemma_layer_of_checked(raw, target_specs);
    lemma_checked_keeps_paths(raw, target_specs);
}

/// In a configuration that passes its check, a section gives a name only
/// where a section written for that scope has a property of the name.
pub proof fn lemma_section_names(raw: Seq<RawLayerView>, scope: LayerScope, name: Seq<char>)
    requires
        checked_config(raw) is Ok,
        properties_of(layer_of(checked_config(raw)->Ok_0, scope)).dom().contains(name),
    ensures
        exists|j: int, m: int|
            0 <= j < raw.len() && 0 <= m < raw[j].properties.len() && raw[j].scope == scope
                && (#[trigger] raw[j].properties[m]).name == name,
{
    let layers = checked_config(raw)->Ok_0;
    lemma_layer_of_member(layers, scope);
    let l = layer_of(layers, scope)->Some_0;
    let j = choose|j: int| 0 <= j < layers.len() && #[trigger] layers[j] == l && l.scope == scope;
    let m = choose|m: int| 0 <= m < l.properties.len() && (#[trigger] l.properties[m]).name == name;
    lemma_checked_keeps_paths(raw, j);
    lemma_first_true(faulty_layers(raw));
    assert(!faulty_layers(raw)[j]);
    assert(raw[j].properties[m].name == name);
}

/// The place of a scope in the order of precedence, lowest first.
pub open spec fn rank(scope: LayerScope) -> int {
    match scope {
        LayerScope::Global => 0,
        LayerScope::Target(_) => 1,
        LayerScope::Platform(_) => 2,
        LayerScope::Profile(_) => 3,
    }
}

/// Precedence, from what was written to what is resolved. Where resolution
/// succeeds, a property written in a selected section has its value in the
/// resolved configuration, unless a selected section of higher precedence
/// gives the same name.
pub proof fn lemma_resolution_precedence(
    raw: Seq<RawLayerView>,
    target: SupportedTarget,
    platform: SupportedPlatform,
    profile: BuildProfile,
    i: int,
    k: int,
)
    requires
        resolution(raw, target, platform, profile) is Ok,
        0 <= i < raw.len(),
        0 <= k < raw[i].properties.len(),
        selects(raw[i].scope, target, platform, profile),
        forall|j: int, m: int|
            0 <= j < raw.len() && 0 <= m < raw[j].properties.len() && selects(
                raw[j].scope,
                target,
                platform,
                profile,
            ) && rank(raw[j].scope) > rank(raw[i].scope) ==> (#[trigger] raw[j].properties[m]).name
                != raw[i].properties[k].name,
    ensures
        flat_of(raw[i].properties[k].shape) is Ok,
        resolution(raw, target, platform, profile)->Ok_0.mapping().dom().contains(
            raw[i].properties[k].name,
        ),
        resolution(raw, target, platform, profile)->Ok_0.mapping()[raw[i].properties[k].name]
            == flat_of(raw[i].properties[k].shape)->Ok_0,
{
    let layers = checked_config(raw)->Ok_0;
    let name = raw[i].properties[k].name;
    lemma_checked_distinct(raw);
    lemma_precedence(layers, target, platform, profile, name);
    lemma_section_gives(raw, i, k);
    assert forall|scope: LayerScope|
        selects(scope, target, platform, profile) && rank(scope) > rank(raw[i].scope)
            implies !(#[trigger] properties_of(layer_of(layers, scope))).dom().contains(name) by {
        if properties_of(layer_of(layers, scope)).dom().contains(name) {
            lemma_section_names(raw, scope, name);
            let (j, m) = choose|j: int, m: int|
                0 <= j < raw.len() && 0 <= m < raw[j].properties.len() && raw[j].scope == scope
                    && (#[trigger] raw[j].properties[m]).name == name;
            assert(raw[j].properties[m].name != name);
        }
    }
    assert(selects(LayerScope::Target(target), target, platform, profile));
    assert(selects(LayerScope::Platform(platform), target, platform, profile));
    assert(selects(LayerScope::Profile(profile), target, platform, profile));
    assert(rank(LayerScope::Target(target)) == 1);
    assert(rank(LayerScope::Platform(platform)) == 2);
    assert(rank(LayerScope::Profile(profile)) == 3);
}

/// Where resolution succeeds, the resolved configuration has no property
/// but those written in the selected sections.
pub proof fn lemma_resolution_has_no_other(
    raw: Seq<RawLayerView>,
    target: SupportedTarget,
    platform: SupportedPlatform,
    profile: BuildProfile,
    name: Seq<char>,
)
    requires
        resolution(raw, target, platform, profile) is Ok,
        resolution(raw, target, platform, profile)->Ok_0.mapping().dom().contains(name),
    ensures
        exists|j: int, m: int|
            0 <= j < raw.len() && 0 <= m < raw[j].properties.len() && selects(
                raw[j].scope,
                target,
                platform,
                profile,
            ) && (#[trigger] raw[j].properties[m]).name == name,
{
    let layers = checked_config(raw)->Ok_0;
    lemma_checked_distinct(raw);
    lemma_precedence(layers, target, platform, profile, name);
    let scope = if properties_of(layer_of(layers, LayerScope::Profile(profile))).dom().contains(
        name,
    ) {
        LayerScope::Profile(profile)
    } else if properties_of(layer_of(layers, LayerScope::Platform(platform))).dom().contains(name) {
        LayerScope::Platform(platform)
    } else if properties_of(layer_of(layers, LayerScope::Target(target))).dom().contains(name) {
        LayerScope::Target(target)
    } else {
        LayerScope::Global
    };
    lemma_section_names(raw, scope, name);
    let (j, m) = choose|j: int, m: int|
        0 <= j < raw.len() && 0 <= m < raw[j].properties.len() && raw[j].scope == scope && (
        #[trigger] raw[j].properties[m]).name == name;
    assert(selects(raw[j].scope, target, platform, profile));
}

} // verus!
