use cyclonedds_rs::interface_gen::def_registry::TypeKey;
use cyclonedds_rs::interface_gen::{
    DefRegistry, Float32, Float64, InterfaceDef, InterfaceElem, InterfaceRef, MsgDefRegistry,
    NsMode,
};

#[test]
fn primitive_type_refs_match_mapping_table() {
    let nsmode = NsMode::Raw;
    let actual = vec![
        (bool::idl_ref(nsmode), bool::msg_ref()),
        (u8::idl_ref(nsmode), u8::msg_ref()),
        (i8::idl_ref(nsmode), i8::msg_ref()),
        (i16::idl_ref(nsmode), i16::msg_ref()),
        (u16::idl_ref(nsmode), u16::msg_ref()),
        (i32::idl_ref(nsmode), i32::msg_ref()),
        (u32::idl_ref(nsmode), u32::msg_ref()),
        (i64::idl_ref(nsmode), i64::msg_ref()),
        (u64::idl_ref(nsmode), u64::msg_ref()),
        (Float32::idl_ref(nsmode), Float32::msg_ref()),
        (Float64::idl_ref(nsmode), Float64::msg_ref()),
        (String::idl_ref(nsmode), String::msg_ref()),
    ];
    let expect = vec![
        ("boolean", "bool"),
        ("octet", "uint8"),
        ("int8", "int8"),
        ("short", "int16"),
        ("unsigned short", "uint16"),
        ("long", "int32"),
        ("unsigned long", "uint32"),
        ("long long", "int64"),
        ("unsigned long long", "uint64"),
        ("float", "float32"),
        ("double", "float64"),
        ("string", "string"),
    ]
    .into_iter()
    .map(|(idl, msg)| (idl.to_string(), msg.to_string()))
    .collect::<Vec<_>>();
    assert_eq!(actual, expect);
}

#[test]
fn ns_mode_module_brackets_nest_per_middle_segment() {
    assert_eq!(NsMode::Raw.idl_module_open("pkg"), "module pkg {\n");
    assert_eq!(NsMode::Raw.idl_module_close(), "};\n");
    assert_eq!(
        NsMode::WithMiddle("msg").idl_module_open("pkg"),
        "module pkg { module msg {\n"
    );
    assert_eq!(NsMode::WithMiddle("msg").idl_module_close(), "};};\n");
    assert_eq!(
        NsMode::WithMiddle("msg::dds_").idl_module_open("pkg"),
        "module pkg { module msg { module dds_ {\n"
    );
    assert_eq!(NsMode::WithMiddle("msg::dds_").idl_module_close(), "};};};\n");
    assert_eq!(
        NsMode::ros2dds().idl_module_open("pkg"),
        "module pkg { module msg { module dds_ {\n"
    );
    assert_eq!(NsMode::ros2dds().idl_module_close(), "};};};\n");
}

#[test]
fn ns_mode_with_middle_ignores_empty_segments() {
    assert_eq!(NsMode::WithMiddle("").idl_module_open("pkg"), "module pkg {\n");
    assert_eq!(NsMode::WithMiddle("").idl_module_close(), "};\n");
    assert_eq!(
        NsMode::WithMiddle("a::::b").idl_module_open("pkg"),
        "module pkg { module a { module b {\n"
    );
    assert_eq!(NsMode::WithMiddle("a::::b").idl_module_close(), "};};};\n");
}

#[test]
fn ns_mode_type_suffix_applies_to_name_and_ref() {
    assert_eq!(NsMode::Raw.idl_type_name("Point"), "Point");
    assert_eq!(NsMode::Raw.idl_type_ref("pkg", "Point"), "pkg::Point");
    assert_eq!(
        NsMode::ros2idl().idl_type_ref("pkg", "Point"),
        "pkg::msg::Point"
    );
    assert_eq!(NsMode::ros2dds().idl_type_name("Point"), "Point_");
    assert_eq!(
        NsMode::ros2dds().idl_type_ref("pkg", "Point"),
        "pkg::msg::dds_::Point_"
    );
}

#[test]
fn idl_field_default_impl_joins_type_and_name() {
    assert_eq!(u32::idl_field("id", NsMode::Raw).as_str(), "unsigned long id;");
    assert_eq!(
        Float64::idl_field("temperature", NsMode::Raw).as_str(),
        "double temperature;"
    );
}

#[test]
fn vec_maps_to_idl_sequence_and_msg_array() {
    assert_eq!(Vec::<Float32>::idl_ref(NsMode::Raw).as_str(), "sequence<float>");
    assert_eq!(Vec::<Float32>::msg_ref().as_str(), "float32[]");
}

#[test]
fn fixed_array_places_size_on_field_for_idl_and_on_type_for_msg() {
    assert_eq!(<[Float64; 16]>::idl_ref(NsMode::Raw).as_str(), "double");
    assert_eq!(<[Float64; 16]>::msg_ref().as_str(), "float64[16]");
    assert_eq!(
        <[Float64; 16]>::idl_field("matrix", NsMode::Raw).as_str(),
        "double matrix[16];"
    );
}

fn enter<T: InterfaceDef>(reg: &mut DefRegistry) -> bool {
    if let Some(refusal) = reg.refusal::<T>() {
        panic!("{}", refusal);
    }
    reg.enter::<T>()
}

fn finish<T: InterfaceDef>(reg: &mut DefRegistry) {
    if let Some(refusal) = reg.finish_refusal::<T>() {
        panic!("{}", refusal);
    }
    reg.finish::<T>();
}

fn enter_msg<T: InterfaceDef>(reg: &mut MsgDefRegistry) -> bool {
    if let Some(refusal) = reg.refusal::<T>() {
        panic!("{}", refusal);
    }
    reg.enter::<T>()
}

fn finish_msg<T: InterfaceDef>(reg: &mut MsgDefRegistry) {
    if let Some(refusal) = reg.finish_refusal::<T>() {
        panic!("{}", refusal);
    }
    reg.finish::<T>();
}

struct Point;

impl InterfaceRef for Point {
    fn idl_ref(mode: NsMode) -> String {
        mode.idl_type_ref("geo", "Point")
    }
    fn msg_ref() -> String {
        "geo/Point".to_string()
    }
    fn collect_defs(reg: &mut DefRegistry) {
        if enter::<Point>(reg) {
            finish::<Point>(reg);
        }
    }
    fn collect_msg_defs(reg: &mut MsgDefRegistry) {
        if enter_msg::<Point>(reg) {
            finish_msg::<Point>(reg);
        }
    }
}

impl InterfaceDef for Point {
    fn package() -> &'static str {
        "geo"
    }
    fn name() -> &'static str {
        "Point"
    }
    fn idl_def(mode: NsMode) -> String {
        match mode {
            NsMode::Raw => "struct Point { double x; double y; };\n".to_string(),
            _ => {
                format!(
                    "{}struct {} {{ double x; double y; }};\n{}",
                    mode.idl_module_open("geometry_msgs"),
                    mode.idl_type_name("Point"),
                    mode.idl_module_close()
                )
            }
        }
    }
    fn msg_def() -> String {
        "float64 x\nfloat64 y\n".to_string()
    }
}

struct Pose;

impl InterfaceRef for Pose {
    fn idl_ref(mode: NsMode) -> String {
        mode.idl_type_ref("geo", "Pose")
    }
    fn msg_ref() -> String {
        "geo/Pose".to_string()
    }
    fn collect_defs(reg: &mut DefRegistry) {
        if enter::<Pose>(reg) {
            Point::collect_defs(reg);
            Point::collect_defs(reg);
            finish::<Pose>(reg);
        }
    }
    fn collect_msg_defs(reg: &mut MsgDefRegistry) {
        if enter_msg::<Pose>(reg) {
            Point::collect_msg_defs(reg);
            Point::collect_msg_defs(reg);
            finish_msg::<Pose>(reg);
        }
    }
}

impl InterfaceDef for Pose {
    fn package() -> &'static str {
        "geo"
    }
    fn name() -> &'static str {
        "Pose"
    }
    fn idl_def(_mode: NsMode) -> String {
        "struct Pose { Point position; Point orientation; };\n".to_string()
    }
    fn msg_def() -> String {
        "geo/Point position\ngeo/Point orientation\n".to_string()
    }
}

#[test]
fn idl_orders_dependencies_first_and_dedups_while_ros2_msg_is_self_only() {
    assert_eq!(
        Pose::idl(NsMode::Raw),
        "struct Point { double x; double y; };\n\
         struct Pose { Point position; Point orientation; };\n"
            .to_string()
    );
    assert_eq!(Pose::ros2_msg(), Pose::msg_def());
}

#[test]
fn full_ros2_msg_lists_self_first_then_deps_with_headers() {
    let expect = "geo/Point position\ngeo/Point orientation\n\
         ================================================================================\n\
         MSG: geo/Point\n\
         float64 x\nfloat64 y\n"
        .to_string();
    assert_eq!(Pose::full_ros2_msg(), expect);
}

struct Node;

impl InterfaceRef for Node {
    fn idl_ref(mode: NsMode) -> String {
        mode.idl_type_ref("geo", "Node")
    }
    fn msg_ref() -> String {
        "geo/Node".to_string()
    }
    fn collect_defs(reg: &mut DefRegistry) {
        if enter::<Node>(reg) {
            Node::collect_defs(reg);
            finish::<Node>(reg);
        }
    }
    fn collect_msg_defs(reg: &mut MsgDefRegistry) {
        if enter_msg::<Node>(reg) {
            Node::collect_msg_defs(reg);
            finish_msg::<Node>(reg);
        }
    }
}

impl InterfaceDef for Node {
    fn package() -> &'static str {
        "geo"
    }
    fn name() -> &'static str {
        "Node"
    }
    fn idl_def(_mode: NsMode) -> String {
        "struct Node { sequence<Node> children; };\n".to_string()
    }
    fn msg_def() -> String {
        "geo/Node[] children\n".to_string()
    }
}

struct CycleA;

struct CycleB;

impl InterfaceRef for CycleA {
    fn idl_ref(mode: NsMode) -> String {
        mode.idl_type_ref("geo", "CycleA")
    }
    fn msg_ref() -> String {
        "geo/CycleA".to_string()
    }
    fn collect_defs(reg: &mut DefRegistry) {
        if enter::<CycleA>(reg) {
            CycleB::collect_defs(reg);
            finish::<CycleA>(reg);
        }
    }
    fn collect_msg_defs(_reg: &mut MsgDefRegistry) {}
}

impl InterfaceDef for CycleA {
    fn package() -> &'static str {
        "geo"
    }
    fn name() -> &'static str {
        "CycleA"
    }
    fn idl_def(_mode: NsMode) -> String {
        "struct CycleA { CycleB b; };\n".to_string()
    }
    fn msg_def() -> String {
        "geo/CycleB b\n".to_string()
    }
}

impl InterfaceRef for CycleB {
    fn idl_ref(mode: NsMode) -> String {
        mode.idl_type_ref("geo", "CycleB")
    }
    fn msg_ref() -> String {
        "geo/CycleB".to_string()
    }
    fn collect_defs(reg: &mut DefRegistry) {
        if enter::<CycleB>(reg) {
            CycleA::collect_defs(reg);
            finish::<CycleB>(reg);
        }
    }
    fn collect_msg_defs(_reg: &mut MsgDefRegistry) {}
}

impl InterfaceDef for CycleB {
    fn package() -> &'static str {
        "geo"
    }
    fn name() -> &'static str {
        "CycleB"
    }
    fn idl_def(_mode: NsMode) -> String {
        "struct CycleB { CycleA a; };\n".to_string()
    }
    fn msg_def() -> String {
        "geo/CycleA a\n".to_string()
    }
}

#[test]
#[should_panic(expected = "geo::Node -> geo::Node")]
fn self_referential_type_panics_with_cycle_path_in_collect_defs() {
    let _ = Node::idl(NsMode::Raw);
}

#[test]
#[should_panic(expected = "geo::Node -> geo::Node")]
fn self_referential_type_panics_with_cycle_path_in_collect_msg_defs() {
    let _ = Node::full_ros2_msg();
}

#[test]
#[should_panic(expected = "geo::CycleA -> geo::CycleB -> geo::CycleA")]
fn mutually_recursive_types_panic_with_full_cycle_path() {
    let _ = CycleA::idl(NsMode::Raw);
}

#[test]
#[should_panic(expected = "DefRegistry::finish called out of order or without matching enter")]
fn def_registry_finish_with_mismatched_type_panics() {
    let mut reg = DefRegistry::new(NsMode::Raw);
    assert!(enter::<Pose>(&mut reg));
    finish::<Point>(&mut reg);

    let mut reg = DefRegistry::new(NsMode::Raw);
    finish::<Point>(&mut reg);
}

#[test]
#[should_panic(expected = "MsgDefRegistry::finish called out of order or without matching enter")]
fn msg_def_registry_finish_with_mismatched_type_panics() {
    let mut reg = MsgDefRegistry::new();
    assert!(enter_msg::<Pose>(&mut reg));
    finish_msg::<Point>(&mut reg);

    let mut reg = MsgDefRegistry::new();
    finish_msg::<Point>(&mut reg);
}

struct DupA;

impl InterfaceRef for DupA {
    fn idl_ref(mode: NsMode) -> String {
        mode.idl_type_ref("conf", "Dup")
    }
    fn msg_ref() -> String {
        "conf/Dup".to_string()
    }
    fn collect_defs(_reg: &mut DefRegistry) {}
    fn collect_msg_defs(_reg: &mut MsgDefRegistry) {}
}

impl InterfaceDef for DupA {
    fn package() -> &'static str {
        "conf"
    }
    fn name() -> &'static str {
        "Dup"
    }
    fn idl_def(_mode: NsMode) -> String {
        "struct Dup { double x; };\n".to_string()
    }
    fn msg_def() -> String {
        "float64 x\n".to_string()
    }
}

struct DupB;

impl InterfaceRef for DupB {
    fn idl_ref(mode: NsMode) -> String {
        mode.idl_type_ref("conf", "Dup")
    }
    fn msg_ref() -> String {
        "conf/Dup".to_string()
    }
    fn collect_defs(_reg: &mut DefRegistry) {}
    fn collect_msg_defs(_reg: &mut MsgDefRegistry) {}
}

impl InterfaceDef for DupB {
    fn package() -> &'static str {
        "conf"
    }
    fn name() -> &'static str {
        "Dup"
    }
    fn idl_def(_mode: NsMode) -> String {
        "struct Dup { string name;\n  unsigned long retries; };\n".to_string()
    }
    fn msg_def() -> String {
        "string name\nuint32 retries\n".to_string()
    }
}

struct DupC;

impl InterfaceRef for DupC {
    fn idl_ref(mode: NsMode) -> String {
        mode.idl_type_ref("conf", "Dup")
    }
    fn msg_ref() -> String {
        "conf/Dup".to_string()
    }
    fn collect_defs(_reg: &mut DefRegistry) {}
    fn collect_msg_defs(_reg: &mut MsgDefRegistry) {}
}

impl InterfaceDef for DupC {
    fn package() -> &'static str {
        "conf"
    }
    fn name() -> &'static str {
        "Dup"
    }
    fn idl_def(_mode: NsMode) -> String {
        "struct Dup { double x; };\n".to_string()
    }
    fn msg_def() -> String {
        "float64 x\n".to_string()
    }
}

#[test]
#[should_panic(expected = "conflicting DdsInterface definitions for conf/Dup")]
fn def_registry_panics_on_conflicting_definitions_for_same_key() {
    let mut reg = DefRegistry::new(NsMode::Raw);
    assert!(enter::<DupA>(&mut reg));
    finish::<DupA>(&mut reg);
    enter::<DupB>(&mut reg);
}

#[test]
#[should_panic(expected = "conflicting DdsInterface definitions for conf/Dup")]
fn msg_def_registry_panics_on_conflicting_definitions_for_same_key() {
    let mut reg = MsgDefRegistry::new();
    assert!(enter_msg::<DupA>(&mut reg));
    finish_msg::<DupA>(&mut reg);
    enter_msg::<DupB>(&mut reg);
}

#[test]
fn def_registry_same_content_duplicate_is_deduped_without_panic() {
    let mut reg = DefRegistry::new(NsMode::Raw);
    assert!(reg.enter::<DupA>());
    reg.finish::<DupA>();
    assert!(!reg.enter::<DupC>());
    assert_eq!(reg.entry_count(), 1);
}

#[test]
fn msg_def_registry_same_content_duplicate_is_deduped_without_panic() {
    let mut reg = MsgDefRegistry::new();
    assert!(reg.enter::<DupA>());
    reg.finish::<DupA>();
    assert!(!reg.enter::<DupC>());
    assert_eq!(reg.entry_count(), 1);
}

#[test]
fn default_mode_is_raw() {
    assert_eq!(NsMode::default(), NsMode::Raw);
    assert_eq!(DefRegistry::default().mode(), NsMode::Raw);
}

#[test]
fn middle_segments_are_cut_at_double_colons() {
    assert_eq!(NsMode::Raw.middle(), None);
    assert_eq!(NsMode::WithMiddle("msg::dds_").middle(), Some("msg::dds_"));
    assert_eq!(
        NsMode::WithMiddle("msg::dds_").middle_segments(),
        vec!["msg", "dds_"]
    );
    assert_eq!(NsMode::WithMiddle(":a:b::c:").middle_segments(), vec![":a:b", "c:"]);
    assert_eq!(NsMode::ros2dds().type_suffix(), "_");
    assert_eq!(NsMode::ros2idl().type_suffix(), "");
}

#[test]
fn nested_elements_are_referred_to_by_their_type() {
    fn element_ref<T: InterfaceElem>() -> (String, String) {
        (Vec::<T>::idl_ref(NsMode::Raw), Vec::<T>::msg_ref())
    }
    assert_eq!(
        element_ref::<String>(),
        ("sequence<string>".to_string(), "string[]".to_string())
    );
    assert_eq!(<[u8; 3]>::msg_ref(), "uint8[3]");
}

#[test]
fn cycle_starts_at_the_first_occurrence() {
    let visiting = vec![
        TypeKey::new("p", "Outer"),
        TypeKey::new("p", "A"),
        TypeKey::new("p", "B"),
    ];
    assert_eq!(
        DefRegistry::format_cycle(&visiting, &TypeKey::new("p", "A")),
        "p::A -> p::B -> p::A"
    );
}

#[test]
fn second_walk_changes_nothing() {
    let mut reg = DefRegistry::new(NsMode::Raw);
    Pose::collect_defs(&mut reg);
    let first = reg.written();
    Pose::collect_defs(&mut reg);
    assert_eq!(reg.written(), first);
    assert_eq!(reg.entry_count(), 2);
}

#[test]
fn second_message_walk_changes_nothing() {
    let mut reg = MsgDefRegistry::new();
    Pose::collect_msg_defs(&mut reg);
    let first = reg.render();
    Pose::collect_msg_defs(&mut reg);
    assert_eq!(reg.render(), first);
    assert_eq!(first, Pose::full_ros2_msg());
}

#[test]
fn both_registries_hold_the_same_types() {
    let mut defs = DefRegistry::new(NsMode::Raw);
    let mut messages = MsgDefRegistry::new();
    Pose::collect_defs(&mut defs);
    Pose::collect_msg_defs(&mut messages);
    assert_eq!(defs.entry_count(), 2);
    assert_eq!(messages.render().matches("MSG: ").count(), 1);
}
