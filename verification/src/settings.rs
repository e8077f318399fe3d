//! A pod's settings, read from its annotations.
//!
//! A malformed annotation never fails the reading: the setting it stands for
//! falls back to its empty value and the other settings are read as usual.

use crate::collections::{new_port_set, port_members, PortSet};
use crate::metadata::{KeyValues, ObjectMeta};
use crate::ports::{lemma_portset_nonzero, parse_portset, portset_of, ParseError, ParseFailure};
use vstd::prelude::*;

verus! {

/// The annotation that lists the ports whose traffic is opaque.
pub open spec fn opaque_ports_key() -> Seq<char> {
    "config.linkerd.io/opaque-ports"@
}

/// The annotation that lists the ports that require an identity.
pub open spec fn require_identity_ports_key() -> Seq<char> {
    "config.linkerd.io/proxy-require-identity-inbound-ports"@
}

/// The annotation that overrides the default inbound policy.
pub open spec fn default_policy_key() -> Seq<char> {
    "config.linkerd.io/default-inbound-policy"@
}

/// Per-pod settings, as configured by the pod's annotations. `P` is the
/// default policy mode.
#[derive(Debug, PartialEq)]
pub struct Settings<P> {
    pub require_id_ports: PortSet,
    pub opaque_ports: PortSet,
    pub default_policy: Option<P>,
}

/// Holds pod metadata and configuration that can change.
#[derive(Debug, PartialEq)]
pub struct Meta<P> {
    /// The pod's labels.
    pub labels: KeyValues,
    /// The settings derived from the pod's annotations.
    pub settings: Settings<P>,
}

/// What reading a port-list annotation finds: nothing where the annotation is
/// not set, else what its value stands for as a port list.
pub open spec fn ports_reading(annotations: Map<Seq<char>, Seq<char>>, annotation: Seq<char>) -> Option<
    Result<Set<u16>, ParseFailure>,
> {
    if annotations.contains_key(annotation) {
        Some(portset_of(annotations[annotation]))
    } else {
        None
    }
}

/// The ports that a port-list annotation gives: those of its value, or none
/// where the annotation is not set or its value is refused.
pub open spec fn annotation_ports(annotations: Map<Seq<char>, Seq<char>>, annotation: Seq<char>) -> Set<
    u16,
> {
    match ports_reading(annotations, annotation) {
        Some(Ok(ports)) => ports,
        _ => Set::empty(),
    }
}

/// Whether `parsed` is something that `parse` may return for the text `value`.
pub open spec fn parses_to<P, E, F: Fn(&str) -> Result<P, E>>(
    parse: F,
    value: Seq<char>,
    parsed: Result<P, E>,
) -> bool {
    exists|text: &str| text@ == value && #[trigger] call_ensures(parse, (text,), parsed)
}

/// Whether `read` is a reading of the default policy override: no override
/// where the annotation is not set, else what `parse` makes of its value.
pub open spec fn policy_reading<P, E, F: Fn(&str) -> Result<P, E>>(
    annotations: Map<Seq<char>, Seq<char>>,
    parse: F,
    read: Result<Option<P>, E>,
) -> bool {
    if annotations.contains_key(default_policy_key()) {
        match read {
            Ok(Some(mode)) => parses_to(parse, annotations[default_policy_key()], Ok(mode)),
            Ok(None) => false,
            Err(error) => parses_to(parse, annotations[default_policy_key()], Err(error)),
        }
    } else {
        read == Ok::<Option<P>, E>(None)
    }
}

/// Reads a port-list annotation, telling a refused value from a missing one.
pub fn read_ports_annotation(annotations: &KeyValues, annotation: &str) -> (read: Option<
    Result<PortSet, ParseError>,
>)
    ensures
        match read {
            None => ports_reading(annotations@, annotation@) is None,
            Some(Ok(ports)) => ports_reading(annotations@, annotation@) == Some(
                Ok::<_, ParseFailure>(port_members(ports)),
            ),
            Some(Err(error)) => ports_reading(annotations@, annotation@) == Some(
                Err::<Set<u16>, _>(error@),
            ),
        },
{
    match annotations.get(annotation) {
        None => None,
        Some(value) => Some(parse_portset(value.as_str())),
    }
}

/// Reads `annotation` from the provided set of annotations, parsing it as a
/// port set. If the annotation is not set or is invalid, the empty set is
/// returned.
pub fn ports_annotation(annotations: &KeyValues, annotation: &str) -> (ports: PortSet)
    ensures
        port_members(ports) == annotation_ports(annotations@, annotation@),
{
    match read_ports_annotation(annotations, annotation) {
        Some(Ok(ports)) => ports,
        _ => new_port_set(),
    }
}

/// Attempts to read a default policy override from an annotation map.
pub fn default_policy<P, E, F: Fn(&str) -> Result<P, E>>(annotations: &KeyValues, parse: F) -> (read:
    Result<Option<P>, E>)
    requires
        forall|text: &str| call_requires(parse, (text,)),
    ensures
        policy_reading(annotations@, parse, read),
{
    match annotations.get("config.linkerd.io/default-inbound-policy") {
        None => Ok(None),
        Some(value) => {
            let parsed = parse(value.as_str());
            match parsed {
                Ok(mode) => Ok(Some(mode)),
                Err(error) => Err(error),
            }
        },
    }
}

/// Whether `settings` is a reading of the annotations: all empty where there
/// are no annotations, else each setting read from its own annotation, a
/// refused value leaving its setting empty.
pub open spec fn settings_reading<P, E, F: Fn(&str) -> Result<P, E>>(
    annotations: Option<Map<Seq<char>, Seq<char>>>,
    parse: F,
    settings: Settings<P>,
) -> bool {
    match annotations {
        None => settings.is_empty(),
        Some(annotations) => {
            &&& port_members(settings.opaque_ports) == annotation_ports(
                annotations,
                opaque_ports_key(),
            )
            &&& port_members(settings.require_id_ports) == annotation_ports(
                annotations,
                require_identity_ports_key(),
            )
            &&& match settings.default_policy {
                Some(mode) => policy_reading(annotations, parse, Ok::<_, E>(Some(mode))),
                None => !annotations.contains_key(default_policy_key()) || exists|error: E|
                    #[trigger] policy_reading(annotations, parse, Err::<Option<P>, _>(error)),
            }
        },
    }
}

/// An object without annotations reads as the empty settings.
pub proof fn lemma_no_annotations_read_empty<P, E, F: Fn(&str) -> Result<P, E>>(
    parse: F,
    settings: Settings<P>,
)
    requires
        settings_reading(None, parse, settings),
    ensures
        settings.is_empty(),
{
}

/// Annotations that set none of the three keys read as the empty settings.
pub proof fn lemma_unset_annotations_read_empty<P, E, F: Fn(&str) -> Result<P, E>>(
    annotations: Map<Seq<char>, Seq<char>>,
    parse: F,
    settings: Settings<P>,
)
    requires
        !annotations.contains_key(opaque_ports_key()),
        !annotations.contains_key(require_identity_ports_key()),
        !annotations.contains_key(default_policy_key()),
        settings_reading(Some(annotations), parse, settings),
    ensures
        settings.is_empty(),
{
}

/// A port-list annotation whose value is refused gives no ports.
pub proof fn lemma_refused_annotation_gives_no_ports(
    annotations: Map<Seq<char>, Seq<char>>,
    annotation: Seq<char>,
)
    requires
        annotations.contains_key(annotation),
        portset_of(annotations[annotation]) is Err,
    ensures
        annotation_ports(annotations, annotation) == Set::<u16>::empty(),
{
}

/// The ports that an annotation gives never include port 0.
pub proof fn lemma_annotation_ports_nonzero(
    annotations: Map<Seq<char>, Seq<char>>,
    annotation: Seq<char>,
)
    ensures
        !annotation_ports(annotations, annotation).contains(0),
{
    if annotations.contains_key(annotation) {
        lemma_portset_nonzero(annotations[annotation]);
    }
}

/// The annotations of an object as a mapping, if it has any.
pub open spec fn annotations_of(meta: ObjectMeta) -> Option<Map<Seq<char>, Seq<char>>> {
    match meta.annotations {
        Some(annotations) => Some(annotations@),
        None => None,
    }
}

/// The labels of an object as a mapping; empty if it has none.
pub open spec fn labels_of(meta: ObjectMeta) -> Map<Seq<char>, Seq<char>> {
    match meta.labels {
        Some(labels) => labels@,
        None => Map::empty(),
    }
}

impl<P> Settings<P> {
    /// Whether these are the settings of a pod that configures nothing: no
    /// port in either set and no default policy.
    pub open spec fn is_empty(self) -> bool {
        &&& port_members(self.require_id_ports) == Set::<u16>::empty()
        &&& port_members(self.opaque_ports) == Set::<u16>::empty()
        &&& self.default_policy is None
    }

    /// Reads pod settings from the pod metadata including:
    ///
    /// - Opaque ports
    /// - Ports that require identity
    /// - The pod's default policy, which `parse` reads from its annotation
    pub fn from_metadata<E, F: Fn(&str) -> Result<P, E>>(meta: &ObjectMeta, parse: F) -> (settings:
        Settings<P>)
        requires
            forall|text: &str| call_requires(parse, (text,)),
        ensures
            settings_reading(annotations_of(*meta), parse, settings),
    {
        let annotations = match &meta.annotations {
            None => {
                return Settings::default();
            },
            Some(annotations) => annotations,
        };
        let default_policy = match default_policy(annotations, parse) {
            Ok(mode) => mode,
            Err(_) => None,
        };
        let opaque_ports = ports_annotation(annotations, "config.linkerd.io/opaque-ports");
        let require_id_ports = ports_annotation(
            annotations,
            "config.linkerd.io/proxy-require-identity-inbound-ports",
        );
        Settings { default_policy, opaque_ports, require_id_ports }
    }
}

impl<P> Default for Settings<P> {
    fn default() -> (settings: Settings<P>)
        ensures
            settings.is_empty(),
    {
        Settings {
            require_id_ports: new_port_set(),
            opaque_ports: new_port_set(),
            default_policy: None,
        }
    }
}

impl<P> Meta<P> {
    /// The pod's labels and the settings that its annotations configure.
    pub fn from_metadata<E, F: Fn(&str) -> Result<P, E>>(meta: ObjectMeta, parse: F) -> (made: Meta<P>)
        requires
            forall|text: &str| call_requires(parse, (text,)),
        ensures
            made.labels@ == labels_of(meta),
            settings_reading(annotations_of(meta), parse, made.settings),
    {
        let settings = Settings::from_metadata(&meta, parse);
        let labels = match meta.labels {
            Some(labels) => labels,
            None => KeyValues::new(),
        };
        Meta { settings, labels }
    }
}

} // verus!
