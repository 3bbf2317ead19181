use waypoint::codec::{FieldType, MarshalError, Value};
use waypoint::connection::Connection;
use waypoint::dispatch::DecodeError;
use waypoint::endian::ByteOrder;
use waypoint::gen::gen;
use waypoint::parser::ParseErrorKind::{
    Invalid, Missing, UnexpectedClose, UnexpectedEnd, UnexpectedOpen,
};
use waypoint::parser::{
    parse_events, parse_protocol, Attr, ParseContext, ParseError, ParseErrorKind, Tag,
};
use waypoint::protocol::{ArgKind, ContextType, Interface, MessageKind, Protocol};
use waypoint::prune::{preprocess_interfaces, preprocess_protocol};
use waypoint::resolve::make_dependency_graph;
use waypoint::graph::DependencyKind;
use waypoint::scanner::{Config, GenerateError};
use waypoint::versions::{find_version, resolve, InterfaceVersion, ResolveError};
use waypoint::wire::Family;
use waypoint::xml::{Attribute, XmlEvent};

const ABC: &str = r#"<?xml version="1.0" encoding="UTF-8"?>
<!DOCTYPE protocol>
<protocol name="abc">
  <copyright>Copy &amp; right</copyright>
  <description summary="three interfaces">
    A creates B, B refers to C.
  </description>
  <interface name="a" version="3">
    <description summary="the root">Root.</description>
    <request name="make_b">
      <arg name="id" type="new_id" interface="b" summary="the new b"/>
    </request>
    <request name="later" since="2">
      <arg name="count" type="uint"/>
    </request>
    <request name="latest" since="3" type="destructor"/>
    <event name="done">
      <arg name="text" type="string" allow-null="true"/>
      <arg name="data" type="array"/>
      <arg name="fd" type="fd"/>
      <arg name="amount" type="fixed"/>
      <arg name="delta" type="int"/>
    </event>
    <enum name="mode" bitfield="true">
      <entry name="none" value="0"/>
      <entry name="fast" value="0x10" summary="quick" since="2"/>
      <entry name="future" value="32" since="3"/>
    </enum>
    <enum name="new_things" since="3">
      <entry name="x" value="1"/>
    </enum>
  </interface>
  <interface name="b" version="2">
    <request name="use_c">
      <arg name="c" type="object" interface="c"/>
    </request>
    <request name="bind">
      <arg name="id" type="new_id"/>
    </request>
  </interface>
  <interface name="c" version="1">
    <request name="poke"/>
    <enum name="e"><entry name="v" value="7"/></enum>
  </interface>
  <interface name="unrelated" version="1">
    <request name="make_a"><arg name="id" type="new_id" interface="a"/></request>
  </interface>
</protocol>
"#;

fn abc() -> Protocol {
    parse_protocol(Family::Narrow, ABC).expect("well formed")
}

fn want(name: &str, version: u32) -> InterfaceVersion {
    InterfaceVersion { name: name.to_string(), version }
}

#[test]
fn parses_a_description() {
    let protocol = abc();
    assert_eq!(protocol.name, "abc");
    assert_eq!(protocol.copyright, "Copy & right");
    assert_eq!(protocol.description.as_ref().unwrap().summary, "three interfaces");
    assert!(protocol.description.as_ref().unwrap().body.contains("A creates B"));
    let names: Vec<&str> = protocol.interfaces.iter().map(|i| i.name.as_str()).collect();
    assert_eq!(names, vec!["a", "b", "c", "unrelated"]);
    let a = &protocol.interfaces[0];
    assert_eq!(a.version, 3);
    assert_eq!(a.requests.len(), 3);
    assert_eq!(a.requests[0].name, "make_b");
    assert_eq!(a.requests[0].since, 1);
    assert!(!a.requests[0].destructor);
    assert_eq!(a.requests[0].args[0].kind, ArgKind::NewId);
    assert_eq!(a.requests[0].args[0].interface.as_deref(), Some("b"));
    assert_eq!(a.requests[0].args[0].summary.as_deref(), Some("the new b"));
    assert_eq!(a.requests[1].since, 2);
    assert_eq!(a.requests[2].since, 3);
    assert!(a.requests[2].destructor);
    let done = &a.events[0];
    let kinds: Vec<ArgKind> = done.args.iter().map(|arg| arg.kind).collect();
    assert_eq!(
        kinds,
        vec![ArgKind::String, ArgKind::Array, ArgKind::Fd, ArgKind::Float, ArgKind::Int32]
    );
    assert!(done.args[0].allow_null);
    assert!(!done.args[1].allow_null);
    let mode = &a.enums[0];
    assert!(mode.bitfield);
    assert_eq!(mode.since, 1);
    let values: Vec<(&str, u32, u32)> =
        mode.entries.iter().map(|e| (e.name.as_str(), e.value, e.since)).collect();
    assert_eq!(values, vec![("none", 0, 1), ("fast", 16, 2), ("future", 32, 3)]);
    assert_eq!(mode.entries[1].summary.as_deref(), Some("quick"));
    assert_eq!(a.enums[1].since, 3);
    assert!(!a.enums[1].bitfield);
}

#[test]
fn wide_family_words() {
    let text = r#"<protocol name="p"><interface name="i" version="1">
        <request name="r" context-type="sender">
          <arg name="a" type="uint64"/><arg name="b" type="int64"/>
          <arg name="c" type="float"/><arg name="d" type="object_id" interface="i"/>
          <arg name="e" type="int32"/><arg name="f" type="uint32"/>
        </request>
        <event name="e" context-type="receiver"/>
        <event name="odd" context-type="nobody"/>
      </interface></protocol>"#;
    let protocol = parse_protocol(Family::Wide, text).unwrap();
    let r = &protocol.interfaces[0].requests[0];
    assert_eq!(r.context_type, Some(ContextType::Sender));
    let kinds: Vec<ArgKind> = r.args.iter().map(|arg| arg.kind).collect();
    assert_eq!(
        kinds,
        vec![
            ArgKind::Uint64,
            ArgKind::Int64,
            ArgKind::Float,
            ArgKind::ObjectId,
            ArgKind::Int32,
            ArgKind::Uint32
        ]
    );
    assert_eq!(protocol.interfaces[0].events[0].context_type, Some(ContextType::Receiver));
    assert_eq!(protocol.interfaces[0].events[1].context_type, None);
    // the narrow family does not know these words, and the other way round
    assert!(parse_protocol(Family::Narrow, text).is_err());
    assert!(parse_protocol(Family::Wide, ABC).is_err());
}

#[test]
fn malformed_descriptions_are_rejected() {
    let bad = [
        "",
        "no markup at all",
        "</protocol>",
        r#"<protocol></protocol>"#,
        r#"<protocol name="p">"#,
        r#"<protocol name="p"><nonsense/></protocol>"#,
        r#"<protocol name="p"></interface></protocol>"#,
        r#"<protocol name="p"><interface name="i"></interface></protocol>"#,
        r#"<protocol name="p"><interface version="1"></interface></protocol>"#,
        r#"<protocol name="p"><interface name="i" version="x"></interface></protocol>"#,
        r#"<protocol name="p"><interface name="i" version="-1"></interface></protocol>"#,
        r#"<protocol name="p"><interface name="i" version="4294967296"></interface></protocol>"#,
        r#"<protocol name="p"><interface name="i" version="1"><request/></interface></protocol>"#,
        r#"<protocol name="p"><interface name="i" version="1"><request name="r"><arg name="a"/></request></interface></protocol>"#,
        r#"<protocol name="p"><interface name="i" version="1"><request name="r"><arg type="int"/></request></interface></protocol>"#,
        r#"<protocol name="p"><interface name="i" version="1"><request name="r"><arg name="a" type="float"/></request></interface></protocol>"#,
        r#"<protocol name="p"><interface name="i" version="1"><request name="r"><arg name="a" type="int"><arg name="b" type="int"/></arg></request></interface></protocol>"#,
        r#"<protocol name="p"><interface name="i" version="1"><enum name="e"><entry name="x"/></enum></interface></protocol>"#,
        r#"<protocol name="p"><interface name="i" version="1"><enum name="e"><entry value="1"/></enum></interface></protocol>"#,
        r#"<protocol name="p"><interface name="i" version="1"><enum name="e"><entry name="x" value="0xzz"/></enum></interface></protocol>"#,
        r#"<protocol name="p"><interface name="i" version="1"><enum><entry name="x" value="1"/></enum></interface></protocol>"#,
        r#"<protocol name="p"><description>nothing</description></protocol>"#,
        r#"<protocol name="p"><description summary="s"><b/></description></protocol>"#,
        r#"<protocol name="p"><copyright><b/></copyright></protocol>"#,
        r#"<protocol name="p"><interface name="i" version="1"><request name="r"></interface></protocol>"#,
    ];
    for text in bad {
        assert!(parse_protocol(Family::Narrow, text).is_err(), "accepted: {}", text);
    }
}

fn fault(text: &str) -> (Tag, usize, ParseErrorKind) {
    let error = parse_protocol(Family::Narrow, text).unwrap_err();
    (error.element, error.position, error.kind)
}

#[test]
fn faults_name_the_element_and_the_attribute() {
    assert_eq!(fault(""), (Tag::Protocol, 0, UnexpectedEnd));
    assert_eq!(fault("<!-- --> text"), (Tag::Protocol, 2, UnexpectedEnd));
    assert_eq!(fault("</protocol>"), (Tag::Protocol, 1, UnexpectedClose(Tag::Protocol)));
    assert_eq!(fault("<protocol>"), (Tag::Protocol, 1, Missing(Attr::Name)));
    assert_eq!(fault(r#"<protocol name="p">"#), (Tag::Protocol, 1, UnexpectedEnd));
    assert_eq!(
        fault(r#"<protocol name="p"><nonsense/>"#),
        (Tag::Protocol, 2, UnexpectedOpen(Tag::Unknown))
    );
    assert_eq!(
        fault(r#"<protocol name="p"><arg/>"#),
        (Tag::Protocol, 2, UnexpectedOpen(Tag::Arg))
    );
    assert_eq!(
        fault(r#"<protocol name="p"></interface>"#),
        (Tag::Protocol, 2, UnexpectedClose(Tag::Interface))
    );
    assert_eq!(
        fault(r#"<protocol name="p"><interface version="1">"#),
        (Tag::Interface, 2, Missing(Attr::Name))
    );
    assert_eq!(
        fault(r#"<protocol name="p"><interface name="i">"#),
        (Tag::Interface, 2, Missing(Attr::Version))
    );
    assert_eq!(
        fault(r#"<protocol name="p"><interface name="i" version="one">"#),
        (Tag::Interface, 2, Invalid(Attr::Version))
    );
    let inside = r#"<protocol name="p"><interface name="i" version="1">"#;
    assert_eq!(fault(&format!("{inside}<request>")), (Tag::Request, 3, Missing(Attr::Name)));
    assert_eq!(
        fault(&format!(r#"{inside}<event name="e"><arg type="int"/>"#)),
        (Tag::Arg, 4, Missing(Attr::Name))
    );
    assert_eq!(
        fault(&format!(r#"{inside}<event name="e"><arg name="a"/>"#)),
        (Tag::Arg, 4, Missing(Attr::Type))
    );
    assert_eq!(
        fault(&format!(r#"{inside}<event name="e"><arg name="a" type="uint64"/>"#)),
        (Tag::Arg, 4, Invalid(Attr::Type))
    );
    assert_eq!(
        fault(&format!(r#"{inside}<event name="e"><arg name="a" type="int"><entry/>"#)),
        (Tag::Arg, 5, UnexpectedOpen(Tag::Entry))
    );
    assert_eq!(
        fault(&format!(r#"{inside}<event name="e"></interface>"#)),
        (Tag::Request, 4, UnexpectedClose(Tag::Interface))
    );
    assert_eq!(fault(&format!("{inside}<enum>")), (Tag::Enum, 3, Missing(Attr::Name)));
    assert_eq!(
        fault(&format!(r#"{inside}<enum name="e"><entry value="1"/>"#)),
        (Tag::Entry, 4, Missing(Attr::Name))
    );
    assert_eq!(
        fault(&format!(r#"{inside}<enum name="e"><entry name="x"/>"#)),
        (Tag::Entry, 4, Missing(Attr::Value))
    );
    assert_eq!(
        fault(&format!(r#"{inside}<enum name="e"><entry name="x" value="ten"/>"#)),
        (Tag::Entry, 4, Invalid(Attr::Value))
    );
    assert_eq!(
        fault(&format!("{inside}<description>")),
        (Tag::Description, 3, Missing(Attr::Summary))
    );
    assert_eq!(
        fault(&format!(r#"{inside}<description summary="s">text<b>"#)),
        (Tag::Description, 5, UnexpectedOpen(Tag::Unknown))
    );
    assert_eq!(
        fault(r#"<protocol name="p"><copyright>text</protocol>"#),
        (Tag::Copyright, 4, UnexpectedClose(Tag::Protocol))
    );
}

#[test]
fn defaults_and_literals() {
    let text = r#"<protocol name="p"><interface name="i" version="+7">
        <request name="r" since="nonsense"><arg name="a" type="string" allow-null="maybe"/></request>
        <enum name="e" bitfield="false" since="2">
          <entry name="a" value="0xFf"/><entry name="b" value="+12"/><entry name="c" value="0x+a"/>
          <entry name="d" value="4294967295"/>
        </enum>
      </interface></protocol>"#;
    let protocol = parse_protocol(Family::Narrow, text).unwrap();
    let i = &protocol.interfaces[0];
    assert_eq!(i.version, 7);
    assert_eq!(i.requests[0].since, 1);
    assert!(!i.requests[0].args[0].allow_null);
    assert!(!i.enums[0].bitfield);
    assert_eq!(i.enums[0].since, 2);
    let values: Vec<u32> = i.enums[0].entries.iter().map(|e| e.value).collect();
    assert_eq!(values, vec![255, 12, 10, u32::MAX]);
}

#[test]
fn events_can_be_parsed_directly() {
    let open = |name: &str, attrs: &[(&str, &str)]| {
        XmlEvent::Open(
            name.to_string(),
            attrs
                .iter()
                .map(|(k, v)| Attribute { name: k.to_string(), value: v.to_string() })
                .collect(),
        )
    };
    let close = |name: &str| XmlEvent::Close(name.to_string());
    let events = vec![
        XmlEvent::Other,
        XmlEvent::Text("\n".to_string()),
        open("protocol", &[("name", "first"), ("name", "second")]),
        open("interface", &[("version", "2"), ("name", "i")]),
        XmlEvent::Text("ignored".to_string()),
        close("interface"),
        close("protocol"),
        open("protocol", &[("name", "never read")]),
    ];
    let protocol = parse_events(Family::Wide, events.clone()).unwrap();
    assert_eq!(protocol.name, "first");
    assert_eq!(protocol.interfaces.len(), 1);
    assert_eq!(protocol.interfaces[0].version, 2);

    let mut reader = ParseContext::from_events(Family::Wide, events);
    assert_eq!(reader.attr("name"), None);
    assert_eq!(reader.next(), Some(XmlEvent::Other));
    assert!(matches!(reader.next(), Some(XmlEvent::Text(_))));
    assert!(matches!(reader.next(), Some(XmlEvent::Open(..))));
    assert_eq!(reader.attr("name"), Some("first".to_string()));
    assert_eq!(reader.attr("version"), None);
    let protocol = reader.protocol().unwrap();
    assert_eq!(protocol.name, "first");
    assert!(matches!(reader.next(), Some(XmlEvent::Open(..))));
    assert_eq!(reader.attr("name"), Some("never read".to_string()));
    assert_eq!(reader.next(), None);
    assert_eq!(reader.next(), None);
}

#[test]
fn the_dependency_graph() {
    let protocol = abc();
    let graph = make_dependency_graph(&protocol.interfaces);
    assert_eq!(graph.names, vec!["a", "b", "c", "unrelated"]);
    let mut edges: Vec<(usize, usize, DependencyKind)> =
        graph.edges.iter().map(|e| (e.from, e.to, e.kind)).collect();
    edges.sort_by_key(|e| (e.0, e.1));
    assert_eq!(
        edges,
        vec![
            (0, 1, DependencyKind::Strong),
            (1, 2, DependencyKind::Weak),
            (3, 0, DependencyKind::Strong)
        ]
    );
}

#[test]
fn edges_collapse_to_the_strongest() {
    let text = r#"<protocol name="p">
      <interface name="x" version="1">
        <request name="one"><arg name="o" type="object" interface="y"/></request>
        <request name="self"><arg name="o" type="new_id" interface="x"/></request>
        <event name="two"><arg name="o" type="new_id" interface="y"/></event>
        <event name="three"><arg name="o" type="object" interface="y"/></event>
        <event name="four"><arg name="o" type="object" interface="ghost"/></event>
        <event name="five"><arg name="o" type="uint" interface="ignored"/></event>
      </interface>
      <interface name="y" version="1"/>
    </protocol>"#;
    let protocol = parse_protocol(Family::Narrow, text).unwrap();
    let graph = make_dependency_graph(&protocol.interfaces);
    assert_eq!(graph.names, vec!["x", "y", "ghost"]);
    let edges: Vec<(usize, usize, DependencyKind)> =
        graph.edges.iter().map(|e| (e.from, e.to, e.kind)).collect();
    assert_eq!(edges, vec![(0, 1, DependencyKind::Strong), (0, 2, DependencyKind::Weak)]);
}

#[test]
fn dependency_closure() {
    let protocol = abc();
    let map = resolve(Family::Narrow, &protocol.interfaces, &vec![want("a", 2)]).unwrap();
    assert_eq!(find_version(&map, "a"), Some(2));
    assert_eq!(find_version(&map, "b"), Some(2));
    assert_eq!(find_version(&map, "c"), Some(0));
    assert_eq!(find_version(&map, "unrelated"), None);
    assert_eq!(map.len(), 3);
}

#[test]
fn inherited_versions_stay_within_the_described() {
    let protocol = abc();
    // b is described in version 2 only
    let map = resolve(Family::Narrow, &protocol.interfaces, &vec![want("a", 3)]).unwrap();
    assert_eq!(find_version(&map, "a"), Some(3));
    assert_eq!(find_version(&map, "b"), Some(2));
    assert_eq!(find_version(&map, "c"), Some(0));
}

#[test]
fn versions_combine_by_the_highest() {
    let protocol = abc();
    let roots = vec![want("unrelated", 1), want("a", 3), want("c", 1), want("a", 2)];
    let map = resolve(Family::Narrow, &protocol.interfaces, &roots).unwrap();
    assert_eq!(find_version(&map, "unrelated"), Some(1));
    assert_eq!(find_version(&map, "a"), Some(3));
    assert_eq!(find_version(&map, "b"), Some(2));
    // c is weakly referred to by b, and a root
    assert_eq!(find_version(&map, "c"), Some(1));
}

#[test]
fn cycles_end() {
    let text = r#"<protocol name="p">
      <interface name="x" version="5"><request name="r"><arg name="o" type="new_id" interface="y"/></request></interface>
      <interface name="y" version="5"><request name="r"><arg name="o" type="new_id" interface="z"/></request></interface>
      <interface name="z" version="5"><request name="r"><arg name="o" type="new_id" interface="x"/>
        <arg name="w" type="object" interface="w"/></request></interface>
      <interface name="w" version="5"><request name="r"><arg name="o" type="new_id" interface="v"/></request></interface>
      <interface name="v" version="5"><request name="r"><arg name="o" type="object" interface="x"/></request></interface>
    </protocol>"#;
    let protocol = parse_protocol(Family::Narrow, text).unwrap();
    let map = resolve(Family::Narrow, &protocol.interfaces, &vec![want("y", 4)]).unwrap();
    for name in ["x", "y", "z"] {
        assert_eq!(find_version(&map, name), Some(4));
    }
    // one weak link makes all beyond it weak
    assert_eq!(find_version(&map, "w"), Some(0));
    assert_eq!(find_version(&map, "v"), Some(0));
}

#[test]
fn faults_of_the_requests() {
    let protocol = abc();
    let result = resolve(Family::Narrow, &protocol.interfaces, &vec![want("a", 4)]);
    assert_eq!(
        result,
        Err(ResolveError::VersionTooHigh { name: "a".to_string(), wanted: 4, declared: 3 })
    );
    let result = resolve(Family::Narrow, &protocol.interfaces, &vec![want("a", 1), want("zz", 1)]);
    assert_eq!(result, Err(ResolveError::Unknown { name: "zz".to_string() }));
    let result =
        resolve(Family::Narrow, &protocol.interfaces, &vec![want("zz", 1), want("a", 9)]);
    assert_eq!(result, Err(ResolveError::Unknown { name: "zz".to_string() }));
    assert_eq!(resolve(Family::Narrow, &protocol.interfaces, &vec![]), Ok(vec![]));
}

const WIDE: &str = r#"<protocol name="w">
  <interface name="hand" version="2">
    <request name="seat"><arg name="s" type="new_id" interface="seat"/></request>
    <request name="name" context-type="sender"><arg name="n" type="string"/></request>
    <request name="other" context-type="receiver"><arg name="n" type="uint32"/></request>
    <request name="plain"><arg name="big" type="uint64"/><arg name="f" type="float"/></request>
    <event name="seen"><arg name="who" type="object_id" interface="ghost"/><arg name="when" type="int64"/></event>
  </interface>
  <interface name="seat" version="3"><event name="gone" since="3"/></interface>
  <interface name="ghost" version="1"><request name="boo"/></interface>
</protocol>"#;

#[test]
fn wide_versions_are_confirmed() {
    let protocol = parse_protocol(Family::Wide, WIDE).unwrap();
    let result = resolve(Family::Wide, &protocol.interfaces, &vec![want("hand", 1)]);
    assert_eq!(result, Err(ResolveError::Unconfirmed { name: "seat".to_string() }));
    let roots = vec![want("hand", 2), want("seat", 1)];
    let map = resolve(Family::Wide, &protocol.interfaces, &roots).unwrap();
    assert_eq!(find_version(&map, "hand"), Some(2));
    assert_eq!(find_version(&map, "seat"), Some(1));
    assert_eq!(find_version(&map, "ghost"), Some(0));
    // the narrow family would hand the version on
    let map = resolve(Family::Narrow, &protocol.interfaces, &vec![want("hand", 2)]).unwrap();
    assert_eq!(find_version(&map, "seat"), Some(2));
}

fn names(interfaces: &[Interface]) -> Vec<&str> {
    interfaces.iter().map(|i| i.name.as_str()).collect()
}

#[test]
fn version_pruning() {
    let protocol = abc();
    let map = vec![want("a", 2), want("c", 0)];
    let left = preprocess_interfaces(&protocol.interfaces, &map);
    assert_eq!(names(&left), vec!["a", "c"]);
    let a = &left[0];
    assert_eq!(a.version, 2);
    let requests: Vec<&str> = a.requests.iter().map(|m| m.name.as_str()).collect();
    assert_eq!(requests, vec!["make_b", "later"]);
    assert_eq!(a.events.len(), 1);
    assert_eq!(a.enums.len(), 1);
    let entries: Vec<&str> = a.enums[0].entries.iter().map(|e| e.name.as_str()).collect();
    assert_eq!(entries, vec!["none", "fast"]);
    // version zero leaves a name only
    let c = &left[1];
    assert_eq!(c.version, 0);
    assert!(c.requests.is_empty() && c.events.is_empty() && c.enums.is_empty());
    // the described interfaces are as they were
    assert_eq!(protocol.interfaces[0].version, 3);
    assert_eq!(protocol.interfaces[0].requests.len(), 3);
    assert_eq!(protocol, abc());
}

#[test]
fn untyped_new_ids_carry_interface_and_version() {
    let rewritten = preprocess_protocol(abc());
    let bind = &rewritten.interfaces[1].requests[1];
    let args: Vec<(&str, ArgKind)> = bind.args.iter().map(|a| (a.name.as_str(), a.kind)).collect();
    assert_eq!(
        args,
        vec![("interface", ArgKind::String), ("version", ArgKind::Uint32), ("id", ArgKind::NewId)]
    );
    // typed ones do not
    assert_eq!(rewritten.interfaces[0].requests[0].args.len(), 1);
    assert_eq!(rewritten.interfaces[0], abc().interfaces[0]);
    let text = r#"<protocol name="p"><interface name="i" version="1"><request name="r">
        <arg name="a" type="new_id"/><arg name="n" type="int"/><arg name="b" type="new_id"/>
      </request></interface></protocol>"#;
    let rewritten = preprocess_protocol(parse_protocol(Family::Narrow, text).unwrap());
    let names: Vec<&str> =
        rewritten.interfaces[0].requests[0].args.iter().map(|a| a.name.as_str()).collect();
    assert_eq!(names, vec!["interface", "version", "a", "n", "interface", "version", "b"]);
}

fn narrow_config() -> Config {
    let mut config = Config::new(Family::Narrow);
    config.protocol(ABC);
    config.global("a", 2);
    config
}

#[test]
fn tables_of_the_narrow_family() {
    let generated = narrow_config().generate().unwrap();
    assert_eq!(generated.family, Family::Narrow);
    let idents: Vec<(&str, &str, &str, u32)> = generated
        .interfaces
        .iter()
        .map(|i| (i.name.as_str(), i.ident.as_str(), i.field.as_str(), i.version))
        .collect();
    assert_eq!(idents, vec![("a", "A", "a", 2), ("b", "B", "b", 2), ("c", "C", "c", 0)]);
    // the inline interface name of b's untyped new id is a string
    assert!(generated.request_enum.needs_lifetime);
    assert!(generated.event_enum.needs_lifetime);
    assert_eq!(generated.request_enum.name, "Request");
    assert_eq!(generated.event_enum.name, "Event");
    assert_eq!(generated.request_enum.enabled, vec![0, 1]);
    assert_eq!(generated.request_enum.disabled, vec![2]);
    let tags: Vec<(&str, &str, u32)> = generated
        .interface_enum
        .iter()
        .map(|tag| (tag.ident.as_str(), tag.name.as_str(), tag.version))
        .collect();
    assert_eq!(tags, vec![("A", "a", 2), ("B", "b", 2), ("C", "c", 0)]);
    let a = &generated.interfaces[0];
    assert_eq!(a.requests.name, "ARequest");
    assert_eq!(a.events.name, "AEvent");
    assert!(!a.requests.needs_lifetime);
    assert!(a.events.needs_lifetime);
    let requests: Vec<(&str, u32)> =
        a.requests.variants.iter().map(|v| (v.name.as_str(), v.opcode)).collect();
    assert_eq!(requests, vec![("MakeB", 0), ("Later", 1)]);
    let make_b = &a.requests.variants[0].fields[0];
    assert_eq!(make_b.name, "id");
    assert_eq!(make_b.ty, FieldType::Handle);
    assert_eq!(make_b.interface.as_deref(), Some("B"));
    assert_eq!(make_b.summary.as_deref(), Some("the new b"));
    let done: Vec<FieldType> = a.events.variants[0].fields.iter().map(|f| f.ty).collect();
    assert_eq!(
        done,
        vec![
            FieldType::OptString,
            FieldType::Array,
            FieldType::Fd,
            FieldType::Fixed,
            FieldType::Int32
        ]
    );
    assert_eq!(a.enums.len(), 1);
    assert_eq!(a.enums[0].prefix, "A_MODE");
    let constants: Vec<(&str, u32, u32)> =
        a.enums[0].entries.iter().map(|c| (c.name.as_str(), c.value, c.since)).collect();
    assert_eq!(constants, vec![("A_MODE_NONE", 0, 1), ("A_MODE_FAST", 16, 2)]);
    let b = &generated.interfaces[1];
    let bind: Vec<(&str, FieldType)> =
        b.requests.variants[1].fields.iter().map(|f| (f.name.as_str(), f.ty)).collect();
    assert_eq!(
        bind,
        vec![
            ("interface", FieldType::String),
            ("version", FieldType::Uint32),
            ("id", FieldType::Handle)
        ]
    );
    assert_eq!(b.requests.variants[1].fields[2].interface, None);
    let c = &generated.interfaces[2];
    assert!(c.requests.variants.is_empty() && c.events.variants.is_empty() && c.enums.is_empty());
}

#[test]
fn names_change_case() {
    let text = r#"<protocol name="p"><interface name="zwlr_layer_shell_v1" version="1">
        <request name="get_layer_surface"><arg name="output_id" type="uint"/></request>
        <enum name="keyboard_interactivity"><entry name="on_demand" value="2"/></enum>
      </interface></protocol>"#;
    let protocol = parse_protocol(Family::Narrow, text).unwrap();
    let generated = gen(Family::Narrow, &protocol.interfaces, None);
    let i = &generated.interfaces[0];
    assert_eq!(i.ident, "ZwlrLayerShellV1");
    assert_eq!(i.field, "zwlr_layer_shell_v1");
    assert_eq!(i.requests.name, "ZwlrLayerShellV1Request");
    assert_eq!(i.events.name, format!("ZwlrLayerShellV1{}", MessageKind::Event.name()));
    assert_eq!(i.requests.variants[0].name, "GetLayerSurface");
    assert_eq!(i.requests.variants[0].fields[0].name, "output_id");
    assert_eq!(i.enums[0].prefix, "ZWLR_LAYER_SHELL_V1_KEYBOARD_INTERACTIVITY");
    assert_eq!(i.enums[0].entries[0].name, "ZWLR_LAYER_SHELL_V1_KEYBOARD_INTERACTIVITY_ON_DEMAND");
}

#[test]
fn tables_of_the_wide_family_for_one_side() {
    let mut config = Config::new(Family::Wide);
    config.protocol(WIDE);
    config.interface("hand", 2);
    config.interface("seat", 2);
    config.context_type(ContextType::Sender);
    let generated = config.generate().unwrap();
    let hand = &generated.interfaces[0];
    let requests: Vec<(&str, u32)> =
        hand.requests.variants.iter().map(|v| (v.name.as_str(), v.opcode)).collect();
    // the request for the other side is left out, and the opcodes stay
    assert_eq!(requests, vec![("Seat", 0), ("Name", 1), ("Plain", 3)]);
    assert!(hand.requests.needs_lifetime);
    let plain: Vec<FieldType> = hand.requests.variants[2].fields.iter().map(|f| f.ty).collect();
    assert_eq!(plain, vec![FieldType::Uint64, FieldType::Float]);
    let seat = &generated.interfaces[1];
    assert_eq!(seat.version, 2);
    assert!(seat.events.variants.is_empty());
    assert_eq!(generated.interfaces[2].version, 0);

    let mut config = Config::new(Family::Wide);
    config.protocol(WIDE);
    config.interface("hand", 2);
    config.interface("seat", 3);
    config.context_type(ContextType::Receiver);
    let generated = config.generate().unwrap();
    let requests: Vec<(&str, u32)> = generated.interfaces[0]
        .requests
        .variants
        .iter()
        .map(|v| (v.name.as_str(), v.opcode))
        .collect();
    assert_eq!(requests, vec![("Seat", 0), ("Other", 2), ("Plain", 3)]);
    assert!(!generated.interfaces[0].requests.needs_lifetime);
    assert_eq!(generated.interfaces[1].events.variants.len(), 1);
}

#[test]
fn faults_of_generating() {
    let mut config = narrow_config();
    config.protocol("<protocol>");
    assert_eq!(
        config.generate().err(),
        Some(GenerateError::Malformed {
            protocol: 1,
            error: ParseError {
                element: Tag::Protocol,
                position: 1,
                kind: Missing(Attr::Name)
            }
        })
    );
    let mut config = narrow_config();
    config.global("a", 9);
    assert_eq!(
        config.generate().err(),
        Some(GenerateError::Unresolved(ResolveError::VersionTooHigh {
            name: "a".to_string(),
            wanted: 9,
            declared: 3
        }))
    );
    let mut config = Config::new(Family::Wide);
    config.protocol(WIDE);
    config.interface("hand", 1);
    assert_eq!(
        config.generate().err(),
        Some(GenerateError::Unresolved(ResolveError::Unconfirmed { name: "seat".to_string() }))
    );
}

#[test]
fn a_later_description_replaces_an_earlier() {
    let mut config = Config::new(Family::Narrow);
    config.protocol(ABC);
    config.protocol(r#"<protocol name="again"><interface name="b" version="9"/>
        <interface name="d" version="1"/></protocol>"#);
    let declared = config.declared().unwrap();
    assert_eq!(names(&declared), vec!["a", "b", "c", "unrelated", "d"]);
    assert_eq!(declared[1].version, 9);
    assert!(declared[1].requests.is_empty());
}

#[test]
fn messages_round_trip_through_the_tables() {
    let generated = narrow_config().generate().unwrap();
    let a = &generated.interfaces[0];
    let mut sender: Connection<i32> = Connection::with_order(Family::Narrow, ByteOrder::Little);
    let mut receiver: Connection<i32> = Connection::with_order(Family::Narrow, ByteOrder::Big);
    let mut receiver_le: Connection<i32> = Connection::with_order(Family::Narrow, ByteOrder::Little);
    let _ = &mut receiver;
    let cases: Vec<Vec<Value<i32>>> = vec![
        vec![
            Value::String(None),
            Value::Array(vec![]),
            Value::Fd(5),
            Value::Fixed(waypoint::wire::Fixed(-384)),
            Value::Int32(-1),
        ],
        vec![
            Value::String(Some(String::new())),
            Value::Array(vec![1, 2, 3, 4, 5]),
            Value::Fd(6),
            Value::Fixed(waypoint::wire::Fixed(i32::MAX)),
            Value::Int32(i32::MIN),
        ],
        vec![
            Value::String(Some("gr\u{fc}n".to_string())),
            Value::Array(vec![0; 4]),
            Value::Fd(7),
            Value::Fixed(waypoint::wire::Fixed(0)),
            Value::Int32(0),
        ],
    ];
    for values in &cases {
        let copy: Vec<Value<i32>> = values
            .iter()
            .map(|v| match v {
                Value::String(s) => Value::String(s.clone()),
                Value::Array(b) => Value::Array(b.clone()),
                Value::Fd(fd) => Value::Fd(*fd),
                Value::Fixed(f) => Value::Fixed(*f),
                Value::Int32(i) => Value::Int32(*i),
                _ => unreachable!(),
            })
            .collect();
        assert_eq!(a.events.variants[0].marshal(&mut sender, 41, copy), Ok(()));
    }
    let (first, second) = sender.pending();
    let mut bytes = first.to_vec();
    bytes.extend_from_slice(second);
    let fds: Vec<i32> = sender.pending_fds().iter().copied().collect();
    assert_eq!(fds, vec![5, 6, 7]);
    assert!(matches!(receiver_le.read_nonblocking::<()>(Ok(&bytes), fds), Ok(true)));
    for values in &cases {
        let message = receiver_le.read_message().unwrap().unwrap();
        let decoded = a.events.unmarshal(message, &mut receiver_le).unwrap();
        assert_eq!(decoded.variant, 0);
        assert_eq!(decoded.object, 41);
        assert_eq!(&decoded.values, values);
    }
    assert!(matches!(receiver_le.read_message(), Ok(None)));
    assert_eq!(receiver_le.claim_fd(), None);
}

#[test]
fn values_must_conform() {
    let generated = narrow_config().generate().unwrap();
    let a = &generated.interfaces[0];
    let mut conn: Connection<i32> = Connection::with_order(Family::Narrow, ByteOrder::Little);
    let later = &a.requests.variants[1];
    assert_eq!(later.marshal(&mut conn, 1, vec![]), Err(MarshalError::Mismatch));
    assert_eq!(later.marshal(&mut conn, 1, vec![Value::Int32(1)]), Err(MarshalError::Mismatch));
    assert_eq!(
        later.marshal(&mut conn, 1 << 32, vec![Value::Uint32(1)]),
        Err(MarshalError::Mismatch)
    );
    let make_b = &a.requests.variants[0];
    assert_eq!(
        make_b.marshal(&mut conn, 1, vec![Value::Handle(1 << 32)]),
        Err(MarshalError::Mismatch)
    );
    let done = &a.events.variants[0];
    let long = vec![0u8; 70000];
    let values = vec![
        Value::String(None),
        Value::Array(long),
        Value::Fd(1),
        Value::Fixed(waypoint::wire::Fixed(0)),
        Value::Int32(0),
    ];
    assert_eq!(done.marshal(&mut conn, 1, values), Err(MarshalError::TooLong));
    assert_eq!(conn.unsent(), 0);
    assert_eq!(conn.pending_fds().len(), 0);
    assert_eq!(later.marshal(&mut conn, 1, vec![Value::Uint32(1)]), Ok(()));
    assert_eq!(conn.unsent(), 12);
}

#[test]
fn unknown_opcodes_and_short_messages() {
    let generated = narrow_config().generate().unwrap();
    let a = &generated.interfaces[0];
    let mut conn: Connection<i32> = Connection::with_order(Family::Narrow, ByteOrder::Little);
    let message = waypoint::message::Message::new(1, 7, ByteOrder::Little, vec![]);
    assert!(a.requests.unmarshal(message, &mut conn).is_none());
    assert_eq!(a.requests.find(7), None);
    assert_eq!(a.requests.find(1), Some(1));
    let message = waypoint::message::Message::new(1, 1, ByteOrder::Little, vec![1, 0]);
    assert!(a.requests.unmarshal(message, &mut conn).is_none());
    // a string that may not be null
    let b = &generated.interfaces[1];
    let bytes = vec![0, 0, 0, 0, 1, 0, 0, 0, 9, 0, 0, 0];
    let message = waypoint::message::Message::new(1, 1, ByteOrder::Little, bytes);
    assert!(b.requests.unmarshal(message, &mut conn).is_none());
    // a file descriptor that did not come
    let bytes = vec![0, 0, 0, 0, 0, 0, 0, 0, 0, 0, 0, 0, 0, 0, 0, 0];
    let message = waypoint::message::Message::new(1, 0, ByteOrder::Little, bytes);
    assert!(a.events.unmarshal(message, &mut conn).is_none());
}

#[test]
fn messages_are_read_by_the_interface_of_their_object() {
    let generated = narrow_config().generate().unwrap();
    let mut conn: Connection<i32> = Connection::with_order(Family::Narrow, ByteOrder::Little);
    assert_eq!(generated.find("b"), Some(1));
    assert_eq!(generated.find("c"), Some(2));
    assert_eq!(generated.find("unrelated"), None);
    let message = || waypoint::message::Message::new(3, 1, ByteOrder::Little, vec![9, 0, 0, 0]);
    let decoded = generated.unmarshal(MessageKind::Request, 0, message(), &mut conn).unwrap();
    assert_eq!((decoded.variant, decoded.object), (1, 3));
    assert_eq!(decoded.values, vec![Value::Uint32(9)]);
    // a has no event with the opcode 1
    let result = generated.unmarshal(MessageKind::Event, 0, message(), &mut conn);
    assert_eq!(result.err(), Some(DecodeError::Unreadable));
    // c is known by name only
    let result = generated.unmarshal(MessageKind::Request, 2, message(), &mut conn);
    assert_eq!(result.err(), Some(DecodeError::Disabled));
    let result = generated.unmarshal(MessageKind::Request, 3, message(), &mut conn);
    assert_eq!(result.err(), Some(DecodeError::UnknownInterface));
}

#[test]
fn create_an_object_then_refer_to_it() {
    // both ends hold the same tables; the bytes go from one to the other as
    // a socket would carry them
    let mut config = Config::new(Family::Wide);
    config.protocol(WIDE);
    config.interface("hand", 2);
    config.interface("seat", 3);
    let generated = config.generate().unwrap();
    let hand = &generated.interfaces[0];
    let mut client: Connection<i32> = Connection::new(Family::Wide);
    let mut server: Connection<i32> = Connection::new(Family::Wide);
    let seat_id: u64 = 0xff00_0000_0000_0001;
    assert_eq!(hand.requests.variants[0].marshal(&mut client, 1, vec![Value::Handle(seat_id)]), Ok(()));
    let (a, b) = client.pending();
    let mut bytes = a.to_vec();
    bytes.extend_from_slice(b);
    let sent = bytes.len();
    assert!(matches!(client.flush_nonblocking::<()>(Ok(sent)), Ok(true)));
    assert!(matches!(server.read_nonblocking::<()>(Ok(&bytes), vec![]), Ok(true)));
    let message = server.read_message().unwrap().unwrap();
    let request = hand.requests.unmarshal(message, &mut server).unwrap();
    assert_eq!(request.object, 1);
    assert_eq!(request.values, vec![Value::Handle(seat_id)]);
    let created = match request.values[0] {
        Value::Handle(id) => id,
        _ => unreachable!(),
    };
    let seat = &generated.interfaces[1];
    assert_eq!(seat.events.variants[0].marshal(&mut server, created, vec![]), Ok(()));
    let (a, b) = server.pending();
    let mut bytes = a.to_vec();
    bytes.extend_from_slice(b);
    assert!(matches!(client.read_nonblocking::<()>(Ok(&bytes), vec![]), Ok(true)));
    let message = client.read_message().unwrap().unwrap();
    let event = seat.events.unmarshal(message, &mut client).unwrap();
    assert_eq!(event.object, seat_id);
    assert_eq!(event.variant, 0);
    assert_eq!(client.unread(), 0);
}
