use cyclonedds_rs::interface_gen::{
    DefRegistry, Float32, Float64, InterfaceDef, InterfaceRef, MsgDefRegistry, NsMode,
};

fn enter<T: InterfaceDef>(reg: &mut DefRegistry) -> bool {
    if let Some(refusal) = reg.refusal::<T>() {
        panic!("{}", refusal);
    }
    reg.enter::<T>()
}

fn enter_msg<T: InterfaceDef>(reg: &mut MsgDefRegistry) -> bool {
    if let Some(refusal) = reg.refusal::<T>() {
        panic!("{}", refusal);
    }
    reg.enter::<T>()
}

/// A definition that consists of one line per field.
fn idl_struct(mode: NsMode, module: &str, name: &str, fields: &[String]) -> String {
    let mut text = mode.idl_module_open(module);
    text.push_str(&format!("struct {} {{\n", mode.idl_type_name(name)));
    for field in fields {
        text.push_str(&format!("  {}\n", field));
    }
    text.push_str("};\n");
    text.push_str(&mode.idl_module_close());
    text
}

struct Point;

impl InterfaceRef for Point {
    fn idl_ref(mode: NsMode) -> String {
        mode.idl_type_ref("geometry_msgs", "Point")
    }
    fn msg_ref() -> String {
        "geometry_msgs/Point".to_string()
    }
    fn collect_defs(reg: &mut DefRegistry) {
        if enter::<Self>(reg) {
            Float64::collect_defs(reg);
            reg.finish::<Self>();
        }
    }
    fn collect_msg_defs(reg: &mut MsgDefRegistry) {
        if enter_msg::<Self>(reg) {
            Float64::collect_msg_defs(reg);
            reg.finish::<Self>();
        }
    }
}

impl InterfaceDef for Point {
    fn package() -> &'static str {
        "geometry_msgs"
    }
    fn name() -> &'static str {
        "Point"
    }
    fn idl_def(mode: NsMode) -> String {
        let fields = [Float64::idl_field("x", mode), Float64::idl_field("y", mode)];
        idl_struct(mode, "geometry_msgs", "Point", &fields)
    }
    fn msg_def() -> String {
        format!("{} x\n{} y\n", Float64::msg_ref(), Float64::msg_ref())
    }
}

struct Pose;

impl InterfaceRef for Pose {
    fn idl_ref(mode: NsMode) -> String {
        mode.idl_type_ref("my_robot_interfaces", "Pose")
    }
    fn msg_ref() -> String {
        "my_robot_interfaces/Pose".to_string()
    }
    fn collect_defs(reg: &mut DefRegistry) {
        if enter::<Self>(reg) {
            Point::collect_defs(reg);
            Point::collect_defs(reg);
            reg.finish::<Self>();
        }
    }
    fn collect_msg_defs(reg: &mut MsgDefRegistry) {
        if enter_msg::<Self>(reg) {
            Point::collect_msg_defs(reg);
            Point::collect_msg_defs(reg);
            reg.finish::<Self>();
        }
    }
}

impl InterfaceDef for Pose {
    fn package() -> &'static str {
        "my_robot_interfaces"
    }
    fn name() -> &'static str {
        "Pose"
    }
    fn idl_def(mode: NsMode) -> String {
        let fields = [
            Point::idl_field("position", mode),
            Point::idl_field("orientation", mode),
        ];
        idl_struct(mode, "my_robot_interfaces", "Pose", &fields)
    }
    fn msg_def() -> String {
        format!("{} position\n{} orientation\n", Point::msg_ref(), Point::msg_ref())
    }
}

struct RobotStatus;

impl InterfaceRef for RobotStatus {
    fn idl_ref(mode: NsMode) -> String {
        mode.idl_type_ref("my_robot_interfaces", "RobotStatus")
    }
    fn msg_ref() -> String {
        "my_robot_interfaces/RobotStatus".to_string()
    }
    fn collect_defs(reg: &mut DefRegistry) {
        if enter::<Self>(reg) {
            u8::collect_defs(reg);
            Float64::collect_defs(reg);
            Point::collect_defs(reg);
            Vec::<Float32>::collect_defs(reg);
            <[Float64; 16]>::collect_defs(reg);
            reg.finish::<Self>();
        }
    }
    fn collect_msg_defs(reg: &mut MsgDefRegistry) {
        if enter_msg::<Self>(reg) {
            Point::collect_msg_defs(reg);
            Vec::<Float32>::collect_msg_defs(reg);
            <[Float64; 16]>::collect_msg_defs(reg);
            reg.finish::<Self>();
        }
    }
}

impl InterfaceDef for RobotStatus {
    fn package() -> &'static str {
        "my_robot_interfaces"
    }
    fn name() -> &'static str {
        "RobotStatus"
    }
    fn idl_def(mode: NsMode) -> String {
        let fields = [
            u8::idl_field("status_code", mode),
            Float64::idl_field("battery_level", mode),
            Point::idl_field("position", mode),
            Vec::<Float32>::idl_field("history", mode),
            <[Float64; 16]>::idl_field("matrix", mode),
        ];
        idl_struct(mode, "my_robot_interfaces", "RobotStatus", &fields)
    }
    fn msg_def() -> String {
        format!(
            "{} status_code\n{} battery_level\n{} position\n{} history\n{} matrix\n",
            u8::msg_ref(),
            Float64::msg_ref(),
            Point::msg_ref(),
            Vec::<Float32>::msg_ref(),
            <[Float64; 16]>::msg_ref()
        )
    }
}

#[test]
fn nested_struct_idl_dedups_and_orders_dependency_first() {
    let expect = "\
module geometry_msgs {
struct Point {
  double x;
  double y;
};
};
module my_robot_interfaces {
struct Pose {
  geometry_msgs::Point position;
  geometry_msgs::Point orientation;
};
};
";
    assert_eq!(Pose::idl(NsMode::Raw), expect);
}

#[test]
fn nested_struct_ros2_msg_only_contains_self_definition() {
    let expect = "geometry_msgs/Point position\ngeometry_msgs/Point orientation\n";
    assert_eq!(Pose::ros2_msg(), expect);
}

#[test]
fn mixed_field_kinds_are_mapped_per_type_table() {
    let expect_idl = "\
module geometry_msgs {
struct Point {
  double x;
  double y;
};
};
module my_robot_interfaces {
struct RobotStatus {
  octet status_code;
  double battery_level;
  geometry_msgs::Point position;
  sequence<float> history;
  double matrix[16];
};
};
";
    assert_eq!(RobotStatus::idl(NsMode::Raw), expect_idl);
    let expect_idl = "\
module geometry_msgs { module msg {
struct Point {
  double x;
  double y;
};
};};
module my_robot_interfaces { module msg {
struct RobotStatus {
  octet status_code;
  double battery_level;
  geometry_msgs::msg::Point position;
  sequence<float> history;
  double matrix[16];
};
};};
";
    assert_eq!(RobotStatus::idl(NsMode::ros2idl()), expect_idl);

    let expect_ros2_idl = "\
module geometry_msgs { module msg { module dds_ {
struct Point {
  double x;
  double y;
};
};};};
module my_robot_interfaces { module msg { module dds_ {
struct RobotStatus {
  octet status_code;
  double battery_level;
  geometry_msgs::msg::dds_::Point position;
  sequence<float> history;
  double matrix[16];
};
};};};
";
    assert_eq!(
        RobotStatus::idl(NsMode::WithMiddle("msg::dds_")),
        expect_ros2_idl
    );

    let expect_ros2_dds_idl = "\
module geometry_msgs { module msg { module dds_ {
struct Point_ {
  double x;
  double y;
};
};};};
module my_robot_interfaces { module msg { module dds_ {
struct RobotStatus_ {
  octet status_code;
  double battery_level;
  geometry_msgs::msg::dds_::Point_ position;
  sequence<float> history;
  double matrix[16];
};
};};};
";
    assert_eq!(RobotStatus::idl(NsMode::ros2dds()), expect_ros2_dds_idl);

    let expect_msg = "\
uint8 status_code
float64 battery_level
geometry_msgs/Point position
float32[] history
float64[16] matrix
";
    assert_eq!(RobotStatus::ros2_msg(), expect_msg);
}

#[test]
fn full_ros2_msg_concatenates_self_and_deduped_dependency_definitions() {
    let expect = "\
geometry_msgs/Point position
geometry_msgs/Point orientation
================================================================================
MSG: geometry_msgs/Point
float64 x
float64 y
";
    assert_eq!(Pose::full_ros2_msg(), expect);
}

struct Node;

impl InterfaceRef for Node {
    fn idl_ref(mode: NsMode) -> String {
        mode.idl_type_ref("test_msgs", "Node")
    }
    fn msg_ref() -> String {
        "test_msgs/Node".to_string()
    }
    fn collect_defs(reg: &mut DefRegistry) {
        if enter::<Self>(reg) {
            i32::collect_defs(reg);
            Node::collect_defs(reg);
            reg.finish::<Self>();
        }
    }
    fn collect_msg_defs(reg: &mut MsgDefRegistry) {
        if enter_msg::<Self>(reg) {
            i32::collect_msg_defs(reg);
            Node::collect_msg_defs(reg);
            reg.finish::<Self>();
        }
    }
}

impl InterfaceDef for Node {
    fn package() -> &'static str {
        "test_msgs"
    }
    fn name() -> &'static str {
        "Node"
    }
    fn idl_def(mode: NsMode) -> String {
        let fields = [i32::idl_field("value", mode)];
        idl_struct(mode, "test_msgs", "Node", &fields)
    }
    fn msg_def() -> String {
        "int32 value\ntest_msgs/Node[] children\n".to_string()
    }
}

#[test]
#[should_panic(expected = "test_msgs::Node -> test_msgs::Node")]
fn self_referential_derive_struct_panics_instead_of_overflowing_stack() {
    let _ = Node::idl(NsMode::Raw);
}

#[test]
#[should_panic(expected = "test_msgs::Node -> test_msgs::Node")]
fn self_referential_derive_struct_panics_in_full_ros2_msg_too() {
    let _ = Node::full_ros2_msg();
}

struct CycleA;

struct CycleB;

impl InterfaceRef for CycleA {
    fn idl_ref(mode: NsMode) -> String {
        mode.idl_type_ref("test_msgs", "CycleA")
    }
    fn msg_ref() -> String {
        "test_msgs/CycleA".to_string()
    }
    fn collect_defs(reg: &mut DefRegistry) {
        if enter::<Self>(reg) {
            CycleB::collect_defs(reg);
            reg.finish::<Self>();
        }
    }
    fn collect_msg_defs(reg: &mut MsgDefRegistry) {
        if enter_msg::<Self>(reg) {
            CycleB::collect_msg_defs(reg);
            reg.finish::<Self>();
        }
    }
}

impl InterfaceDef for CycleA {
    fn package() -> &'static str {
        "test_msgs"
    }
    fn name() -> &'static str {
        "CycleA"
    }
    fn idl_def(mode: NsMode) -> String {
        let fields = [format!("sequence<{}> b;", CycleB::idl_ref(mode))];
        idl_struct(mode, "test_msgs", "CycleA", &fields)
    }
    fn msg_def() -> String {
        "test_msgs/CycleB[] b\n".to_string()
    }
}

impl InterfaceRef for CycleB {
    fn idl_ref(mode: NsMode) -> String {
        mode.idl_type_ref("test_msgs", "CycleB")
    }
    fn msg_ref() -> String {
        "test_msgs/CycleB".to_string()
    }
    fn collect_defs(reg: &mut DefRegistry) {
        if enter::<Self>(reg) {
            CycleA::collect_defs(reg);
            reg.finish::<Self>();
        }
    }
    fn collect_msg_defs(reg: &mut MsgDefRegistry) {
        if enter_msg::<Self>(reg) {
            CycleA::collect_msg_defs(reg);
            reg.finish::<Self>();
        }
    }
}

impl InterfaceDef for CycleB {
    fn package() -> &'static str {
        "test_msgs"
    }
    fn name() -> &'static str {
        "CycleB"
    }
    fn idl_def(mode: NsMode) -> String {
        let fields = [format!("sequence<{}> a;", CycleA::idl_ref(mode))];
        idl_struct(mode, "test_msgs", "CycleB", &fields)
    }
    fn msg_def() -> String {
        "test_msgs/CycleA[] a\n".to_string()
    }
}

#[test]
#[should_panic(expected = "test_msgs::CycleA -> test_msgs::CycleB -> test_msgs::CycleA")]
fn mutually_recursive_derive_structs_panic_with_full_cycle_path() {
    let _ = CycleA::idl(NsMode::Raw);
}

struct ConfigV1;

impl InterfaceRef for ConfigV1 {
    fn idl_ref(mode: NsMode) -> String {
        mode.idl_type_ref("app_msgs", "Config")
    }
    fn msg_ref() -> String {
        "app_msgs/Config".to_string()
    }
    fn collect_defs(reg: &mut DefRegistry) {
        if enter::<Self>(reg) {
            reg.finish::<Self>();
        }
    }
    fn collect_msg_defs(reg: &mut MsgDefRegistry) {
        if enter_msg::<Self>(reg) {
            reg.finish::<Self>();
        }
    }
}

impl InterfaceDef for ConfigV1 {
    fn package() -> &'static str {
        "app_msgs"
    }
    fn name() -> &'static str {
        "Config"
    }
    fn idl_def(mode: NsMode) -> String {
        idl_struct(mode, "app_msgs", "Config", &[Float64::idl_field("threshold", mode)])
    }
    fn msg_def() -> String {
        "float64 threshold\n".to_string()
    }
}

struct ConfigV2;

impl InterfaceRef for ConfigV2 {
    fn idl_ref(mode: NsMode) -> String {
        mode.idl_type_ref("app_msgs", "Config")
    }
    fn msg_ref() -> String {
        "app_msgs/Config".to_string()
    }
    fn collect_defs(reg: &mut DefRegistry) {
        if enter::<Self>(reg) {
            reg.finish::<Self>();
        }
    }
    fn collect_msg_defs(reg: &mut MsgDefRegistry) {
        if enter_msg::<Self>(reg) {
            reg.finish::<Self>();
        }
    }
}

impl InterfaceDef for ConfigV2 {
    fn package() -> &'static str {
        "app_msgs"
    }
    fn name() -> &'static str {
        "Config"
    }
    fn idl_def(mode: NsMode) -> String {
        let fields = [String::idl_field("name", mode), u32::idl_field("retries", mode)];
        idl_struct(mode, "app_msgs", "Config", &fields)
    }
    fn msg_def() -> String {
        "string name\nuint32 retries\n".to_string()
    }
}

struct UsesConflictingConfigs;

impl InterfaceRef for UsesConflictingConfigs {
    fn idl_ref(mode: NsMode) -> String {
        mode.idl_type_ref("test_msgs", "UsesConflictingConfigs")
    }
    fn msg_ref() -> String {
        "test_msgs/UsesConflictingConfigs".to_string()
    }
    fn collect_defs(reg: &mut DefRegistry) {
        if enter::<Self>(reg) {
            ConfigV1::collect_defs(reg);
            ConfigV2::collect_defs(reg);
            reg.finish::<Self>();
        }
    }
    fn collect_msg_defs(reg: &mut MsgDefRegistry) {
        if enter_msg::<Self>(reg) {
            ConfigV1::collect_msg_defs(reg);
            ConfigV2::collect_msg_defs(reg);
            reg.finish::<Self>();
        }
    }
}

impl InterfaceDef for UsesConflictingConfigs {
    fn package() -> &'static str {
        "test_msgs"
    }
    fn name() -> &'static str {
        "UsesConflictingConfigs"
    }
    fn idl_def(mode: NsMode) -> String {
        let fields = [ConfigV1::idl_field("a", mode), ConfigV2::idl_field("b", mode)];
        idl_struct(mode, "test_msgs", "UsesConflictingConfigs", &fields)
    }
    fn msg_def() -> String {
        "app_msgs/Config a\napp_msgs/Config b\n".to_string()
    }
}

#[test]
#[should_panic(expected = "conflicting DdsInterface definitions for app_msgs/Config")]
fn conflicting_same_name_derive_structs_panic_via_idl() {
    let _ = UsesConflictingConfigs::idl(NsMode::Raw);
}

#[test]
#[should_panic(expected = "conflicting DdsInterface definitions for app_msgs/Config")]
fn conflicting_same_name_derive_structs_panic_via_full_ros2_msg() {
    let _ = UsesConflictingConfigs::full_ros2_msg();
}

struct StringMsg;

impl InterfaceRef for StringMsg {
    fn idl_ref(mode: NsMode) -> String {
        mode.idl_type_ref("std_msgs", "String")
    }
    fn msg_ref() -> String {
        "std_msgs/String".to_string()
    }
    fn collect_defs(reg: &mut DefRegistry) {
        if enter::<Self>(reg) {
            String::collect_defs(reg);
            reg.finish::<Self>();
        }
    }
    fn collect_msg_defs(reg: &mut MsgDefRegistry) {
        if enter_msg::<Self>(reg) {
            String::collect_msg_defs(reg);
            reg.finish::<Self>();
        }
    }
}

impl InterfaceDef for StringMsg {
    fn package() -> &'static str {
        "std_msgs"
    }
    fn name() -> &'static str {
        "String"
    }
    fn idl_def(mode: NsMode) -> String {
        idl_struct(mode, "std_msgs", "String", &[String::idl_field("data", mode)])
    }
    fn msg_def() -> String {
        format!("{} data\n", String::msg_ref())
    }
}

struct RenamedDependent;

impl InterfaceRef for RenamedDependent {
    fn idl_ref(mode: NsMode) -> String {
        mode.idl_type_ref("test_msgs", "RenamedDependent")
    }
    fn msg_ref() -> String {
        "test_msgs/RenamedDependent".to_string()
    }
    fn collect_defs(reg: &mut DefRegistry) {
        if enter::<Self>(reg) {
            StringMsg::collect_defs(reg);
            reg.finish::<Self>();
        }
    }
    fn collect_msg_defs(reg: &mut MsgDefRegistry) {
        if enter_msg::<Self>(reg) {
            StringMsg::collect_msg_defs(reg);
            reg.finish::<Self>();
        }
    }
}

impl InterfaceDef for RenamedDependent {
    fn package() -> &'static str {
        "test_msgs"
    }
    fn name() -> &'static str {
        "RenamedDependent"
    }
    fn idl_def(mode: NsMode) -> String {
        idl_struct(mode, "test_msgs", "RenamedDependent", &[StringMsg::idl_field("msg", mode)])
    }
    fn msg_def() -> String {
        format!("{} msg\n", StringMsg::msg_ref())
    }
}

#[test]
fn name_override_replaces_wire_name_everywhere() {
    assert_eq!(<StringMsg as InterfaceRef>::msg_ref(), "std_msgs/String");
    assert_eq!(<StringMsg as InterfaceDef>::name(), "String");
    assert_eq!(StringMsg::ros2_msg(), "string data\n");

    let expect_idl = "\
module std_msgs { module msg {
struct String {
  string data;
};
};};
";
    assert_eq!(StringMsg::idl(NsMode::ros2idl()), expect_idl);

    let expect_full = "\
std_msgs/String msg
================================================================================
MSG: std_msgs/String
string data
";
    assert_eq!(RenamedDependent::full_ros2_msg(), expect_full);
}
