//! IDL and ROS 2 message definitions of types.
pub mod def_registry;
pub mod laws;
pub mod ns_mode;

use crate::text;
use def_registry::DefKey;
use def_registry::DefNode;
pub use def_registry::{DefRegistry, MsgDefRegistry};
pub use ns_mode::NsMode;
use vstd::prelude::*;

verus! {

/// A type that can stand as a field of a definition.
pub trait InterfaceRef {
    /// Whether the type can be written in a definition at all.
    open spec fn representable() -> bool {
        true
    }

    /// How IDL refers to the type. Nothing is known of a type that does not say.
    open spec fn idl_ref_text(mode: NsMode) -> Seq<char> {
        arbitrary()
    }

    /// How a message refers to the type. Nothing is known of a type that does
    /// not say.
    open spec fn msg_ref_text() -> Seq<char> {
        arbitrary()
    }

    /// The types with definitions of their own that this one leads to in IDL.
    open spec fn idl_forest(mode: NsMode) -> Seq<DefNode> {
        Seq::empty()
    }

    /// The types with definitions of their own that this one leads to in
    /// messages.
    open spec fn msg_forest() -> Seq<DefNode> {
        Seq::empty()
    }

    /// The type as IDL refers to it: `unsigned long`, `sequence<double>`.
    fn idl_ref(mode: NsMode) -> (r: String)
        requires
            Self::representable(),
        ensures
            r@ == Self::idl_ref_text(mode),
    ;

    /// The type as a message refers to it: `uint32`, `float64[]`.
    fn msg_ref() -> (r: String)
        requires
            Self::representable(),
        ensures
            r@ == Self::msg_ref_text(),
    ;

    /// The declaration of a field of this type. A type whose size stands
    /// behind the field's name has its own.
    fn idl_field(name: &str, mode: NsMode) -> (r: String)
        requires
            Self::representable(),
        default_ensures
            r@ == Self::idl_ref_text(mode) + " "@ + name@ + ";"@,
    {
        let mut s = Self::idl_ref(mode);
        s.append(" ");
        s.append(name);
        s.append(";");
        s
    }

    /// Registers the definitions that the type leads to.
    fn collect_defs(reg: &mut DefRegistry)
        requires
            Self::representable(),
            def_registry::collected(old(reg)@, Self::idl_forest(old(reg)@.mode)) is Some,
        ensures
            def_registry::collected(old(reg)@, Self::idl_forest(old(reg)@.mode)) == Some(
                final(reg)@,
            ),
    ;

    /// Registers the message definitions that the type leads to.
    fn collect_msg_defs(reg: &mut MsgDefRegistry)
        requires
            Self::representable(),
            def_registry::msg_collected(old(reg)@, Self::msg_forest()) is Some,
        ensures
            def_registry::msg_collected(old(reg)@, Self::msg_forest()) == Some(final(reg)@),
    ;
}

/// A type that can be the element of a `Vec` or an array. Sequences and arrays
/// are not: a message has no notation for a sequence of sequences.
pub trait InterfaceElem: InterfaceRef {

}

/// A type with a definition of its own.
pub trait InterfaceDef: InterfaceRef {
    /// Package and name. Nothing is known of a type that does not say, here and
    /// below.
    open spec fn key() -> DefKey {
        arbitrary()
    }

    /// The definition in IDL.
    open spec fn idl_text(mode: NsMode) -> Seq<char> {
        arbitrary()
    }

    /// The definition as a message.
    open spec fn msg_text() -> Seq<char> {
        arbitrary()
    }

    fn package() -> (r: &'static str)
        ensures
            r@ == Self::key().0,
    ;

    fn name() -> (r: &'static str)
        ensures
            r@ == Self::key().1,
    ;

    /// The type's own IDL definition.
    fn idl_def(mode: NsMode) -> (r: String)
        ensures
            r@ == Self::idl_text(mode),
    ;

    /// The type's own message definition.
    fn msg_def() -> (r: String)
        ensures
            r@ == Self::msg_text(),
    ;

    /// The IDL of the type and of all that it depends on, dependencies first.
    fn idl(mode: NsMode) -> (r: String)
        requires
            Self::representable(),
            def_registry::collected(
                def_registry::DefState::empty(mode),
                Self::idl_forest(mode),
            ) is Some,
        ensures
            r@ == def_registry::collected(
                def_registry::DefState::empty(mode),
                Self::idl_forest(mode),
            )->0.written(),
    {
        let mut reg = DefRegistry::new(mode);
        Self::collect_defs(&mut reg);
        reg.written()
    }

    /// The type's own message definition, without those of its dependencies.
    fn ros2_msg() -> (r: String)
        ensures
            r@ == Self::msg_text(),
    {
        Self::msg_def()
    }

    /// The type's message definition followed by those of its dependencies.
    fn full_ros2_msg() -> (r: String)
        requires
            Self::representable(),
            def_registry::msg_collected(
                def_registry::MsgState::empty(),
                Self::msg_forest(),
            ) is Some,
        ensures
            r@ == def_registry::rendered(
                def_registry::msg_collected(
                    def_registry::MsgState::empty(),
                    Self::msg_forest(),
                )->0.entries,
            ),
    {
        let mut reg = MsgDefRegistry::new();
        Self::collect_msg_defs(&mut reg);
        reg.render()
    }
}

impl InterfaceRef for bool {
    open spec fn idl_ref_text(mode: NsMode) -> Seq<char> {
        "boolean"@
    }

    open spec fn msg_ref_text() -> Seq<char> {
        "bool"@
    }

    fn idl_ref(mode: NsMode) -> String {
        "boolean".to_owned()
    }

    fn msg_ref() -> String {
        "bool".to_owned()
    }

    fn collect_defs(reg: &mut DefRegistry) {
    }

    fn collect_msg_defs(reg: &mut MsgDefRegistry) {
    }
}

impl InterfaceElem for bool {

}

impl InterfaceRef for u8 {
    open spec fn idl_ref_text(mode: NsMode) -> Seq<char> {
        "octet"@
    }

    open spec fn msg_ref_text() -> Seq<char> {
        "uint8"@
    }

    fn idl_ref(mode: NsMode) -> String {
        "octet".to_owned()
    }

    fn msg_ref() -> String {
        "uint8".to_owned()
    }

    fn collect_defs(reg: &mut DefRegistry) {
    }

    fn collect_msg_defs(reg: &mut MsgDefRegistry) {
    }
}

impl InterfaceElem for u8 {

}

impl InterfaceRef for i8 {
    open spec fn idl_ref_text(mode: NsMode) -> Seq<char> {
        "int8"@
    }

    open spec fn msg_ref_text() -> Seq<char> {
        "int8"@
    }

    fn idl_ref(mode: NsMode) -> String {
        "int8".to_owned()
    }

    fn msg_ref() -> String {
        "int8".to_owned()
    }

    fn collect_defs(reg: &mut DefRegistry) {
    }

    fn collect_msg_defs(reg: &mut MsgDefRegistry) {
    }
}

impl InterfaceElem for i8 {

}

impl InterfaceRef for i16 {
    open spec fn idl_ref_text(mode: NsMode) -> Seq<char> {
        "short"@
    }

    open spec fn msg_ref_text() -> Seq<char> {
        "int16"@
    }

    fn idl_ref(mode: NsMode) -> String {
        "short".to_owned()
    }

    fn msg_ref() -> String {
        "int16".to_owned()
    }

    fn collect_defs(reg: &mut DefRegistry) {
    }

    fn collect_msg_defs(reg: &mut MsgDefRegistry) {
    }
}

impl InterfaceElem for i16 {

}

impl InterfaceRef for u16 {
    open spec fn idl_ref_text(mode: NsMode) -> Seq<char> {
        "unsigned short"@
    }

    open spec fn msg_ref_text() -> Seq<char> {
        "uint16"@
    }

    fn idl_ref(mode: NsMode) -> String {
        "unsigned short".to_owned()
    }

    fn msg_ref() -> String {
        "uint16".to_owned()
    }

    fn collect_defs(reg: &mut DefRegistry) {
    }

    fn collect_msg_defs(reg: &mut MsgDefRegistry) {
    }
}

impl InterfaceElem for u16 {

}

impl InterfaceRef for i32 {
    open spec fn idl_ref_text(mode: NsMode) -> Seq<char> {
        "long"@
    }

    open spec fn msg_ref_text() -> Seq<char> {
        "int32"@
    }

    fn idl_ref(mode: NsMode) -> String {
        "long".to_owned()
    }

    fn msg_ref() -> String {
        "int32".to_owned()
    }

    fn collect_defs(reg: &mut DefRegistry) {
    }

    fn collect_msg_defs(reg: &mut MsgDefRegistry) {
    }
}

impl InterfaceElem for i32 {

}

impl InterfaceRef for u32 {
    open spec fn idl_ref_text(mode: NsMode) -> Seq<char> {
        "unsigned long"@
    }

    open spec fn msg_ref_text() -> Seq<char> {
        "uint32"@
    }

    fn idl_ref(mode: NsMode) -> String {
        "unsigned long".to_owned()
    }

    fn msg_ref() -> String {
        "uint32".to_owned()
    }

    fn collect_defs(reg: &mut DefRegistry) {
    }

    fn collect_msg_defs(reg: &mut MsgDefRegistry) {
    }
}

impl InterfaceElem for u32 {

}

impl InterfaceRef for i64 {
    open spec fn idl_ref_text(mode: NsMode) -> Seq<char> {
        "long long"@
    }

    open spec fn msg_ref_text() -> Seq<char> {
        "int64"@
    }

    fn idl_ref(mode: NsMode) -> String {
        "long long".to_owned()
    }

    fn msg_ref() -> String {
        "int64".to_owned()
    }

    fn collect_defs(reg: &mut DefRegistry) {
    }

    fn collect_msg_defs(reg: &mut MsgDefRegistry) {
    }
}

impl InterfaceElem for i64 {

}

impl InterfaceRef for u64 {
    open spec fn idl_ref_text(mode: NsMode) -> Seq<char> {
        "unsigned long long"@
    }

    open spec fn msg_ref_text() -> Seq<char> {
        "uint64"@
    }

    fn idl_ref(mode: NsMode) -> String {
        "unsigned long long".to_owned()
    }

    fn msg_ref() -> String {
        "uint64".to_owned()
    }

    fn collect_defs(reg: &mut DefRegistry) {
    }

    fn collect_msg_defs(reg: &mut MsgDefRegistry) {
    }
}

impl InterfaceElem for u64 {

}

/// A field of 32-bit floating point.
#[derive(Debug, Clone, Copy, PartialEq, Eq)]
pub struct Float32;

impl InterfaceRef for Float32 {
    open spec fn idl_ref_text(mode: NsMode) -> Seq<char> {
        "float"@
    }

    open spec fn msg_ref_text() -> Seq<char> {
        "float32"@
    }

    fn idl_ref(mode: NsMode) -> String {
        "float".to_owned()
    }

    fn msg_ref() -> String {
        "float32".to_owned()
    }

    fn collect_defs(reg: &mut DefRegistry) {
    }

    fn collect_msg_defs(reg: &mut MsgDefRegistry) {
    }
}

impl InterfaceElem for Float32 {

}

/// A field of 64-bit floating point.
#[derive(Debug, Clone, Copy, PartialEq, Eq)]
pub struct Float64;

impl InterfaceRef for Float64 {
    open spec fn idl_ref_text(mode: NsMode) -> Seq<char> {
        "double"@
    }

    open spec fn msg_ref_text() -> Seq<char> {
        "float64"@
    }

    fn idl_ref(mode: NsMode) -> String {
        "double".to_owned()
    }

    fn msg_ref() -> String {
        "float64".to_owned()
    }

    fn collect_defs(reg: &mut DefRegistry) {
    }

    fn collect_msg_defs(reg: &mut MsgDefRegistry) {
    }
}

impl InterfaceElem for Float64 {

}

impl InterfaceRef for String {
    open spec fn idl_ref_text(mode: NsMode) -> Seq<char> {
        "string"@
    }

    open spec fn msg_ref_text() -> Seq<char> {
        "string"@
    }

    fn idl_ref(mode: NsMode) -> String {
        "string".to_owned()
    }

    fn msg_ref() -> String {
        "string".to_owned()
    }

    fn collect_defs(reg: &mut DefRegistry) {
    }

    fn collect_msg_defs(reg: &mut MsgDefRegistry) {
    }
}

impl InterfaceElem for String {

}

impl<T: InterfaceElem> InterfaceRef for Vec<T> {
    open spec fn representable() -> bool {
        T::representable()
    }

    open spec fn idl_ref_text(mode: NsMode) -> Seq<char> {
        "sequence<"@ + T::idl_ref_text(mode) + ">"@
    }

    open spec fn msg_ref_text() -> Seq<char> {
        T::msg_ref_text() + "[]"@
    }

    open spec fn idl_forest(mode: NsMode) -> Seq<DefNode> {
        T::idl_forest(mode)
    }

    open spec fn msg_forest() -> Seq<DefNode> {
        T::msg_forest()
    }

    fn idl_ref(mode: NsMode) -> String {
        let mut s = "sequence<".to_owned();
        let element = T::idl_ref(mode);
        s.append(element.as_str());
        s.append(">");
        s
    }

    fn msg_ref() -> String {
        let mut s = T::msg_ref();
        s.append("[]");
        s
    }

    fn collect_defs(reg: &mut DefRegistry) {
        T::collect_defs(reg);
    }

    fn collect_msg_defs(reg: &mut MsgDefRegistry) {
        T::collect_msg_defs(reg);
    }
}

/// An array has a representation only where it holds at least one element.
impl<T: InterfaceElem, const N: usize> InterfaceRef for [T; N] {
    open spec fn representable() -> bool {
        N > 0 && T::representable()
    }

    open spec fn idl_ref_text(mode: NsMode) -> Seq<char> {
        T::idl_ref_text(mode)
    }

    open spec fn msg_ref_text() -> Seq<char> {
        T::msg_ref_text() + "["@ + text::decimal(N as nat) + "]"@
    }

    open spec fn idl_forest(mode: NsMode) -> Seq<DefNode> {
        T::idl_forest(mode)
    }

    open spec fn msg_forest() -> Seq<DefNode> {
        T::msg_forest()
    }

    fn idl_ref(mode: NsMode) -> String {
        T::idl_ref(mode)
    }

    fn msg_ref() -> String {
        let mut s = T::msg_ref();
        s.append("[");
        text::push_decimal(&mut s, N as u128);
        s.append("]");
        s
    }

    /// In IDL the size stands behind the field's name.
    fn idl_field(name: &str, mode: NsMode) -> (r: String)
        ensures
            r@ == T::idl_ref_text(mode) + " "@ + name@ + "["@ + text::decimal(N as nat) + "];"@,
    {
        let mut s = T::idl_ref(mode);
        s.append(" ");
        s.append(name);
        s.append("[");
        text::push_decimal(&mut s, N as u128);
        s.append("];");
        s
    }

    fn collect_defs(reg: &mut DefRegistry) {
        T::collect_defs(reg);
    }

    fn collect_msg_defs(reg: &mut MsgDefRegistry) {
        T::collect_msg_defs(reg);
    }
}

/// A sequence leads to what its element leads to, and so does an array. A walk
/// over a field of such a type leaves a registry as a walk over a field of the
/// element does.
pub proof fn law_sequences_lead_where_elements_lead<T: InterfaceElem, const N: usize>(
    s: def_registry::DefState,
    m: def_registry::MsgState,
)
    ensures
        <Vec<T> as InterfaceRef>::idl_forest(s.mode) == T::idl_forest(s.mode),
        <Vec<T> as InterfaceRef>::msg_forest() == T::msg_forest(),
        <[T; N] as InterfaceRef>::idl_forest(s.mode) == T::idl_forest(s.mode),
        <[T; N] as InterfaceRef>::msg_forest() == T::msg_forest(),
        def_registry::collected(s, <Vec<T> as InterfaceRef>::idl_forest(s.mode))
            == def_registry::collected(s, T::idl_forest(s.mode)),
        def_registry::msg_collected(m, <Vec<T> as InterfaceRef>::msg_forest())
            == def_registry::msg_collected(m, T::msg_forest()),
        def_registry::collected(s, <[T; N] as InterfaceRef>::idl_forest(s.mode))
            == def_registry::collected(s, T::idl_forest(s.mode)),
        def_registry::msg_collected(m, <[T; N] as InterfaceRef>::msg_forest())
            == def_registry::msg_collected(m, T::msg_forest()),
{
}

/// After a walk over a sequence or an array, each type that the element leads to
/// is registered under its own definition; the element's own, where it has one.
pub proof fn law_elements_of_sequences_are_registered<T: InterfaceElem, const N: usize>(
    s: def_registry::DefState,
    i: int,
)
    requires
        laws::consistent(s.defs, s.visiting),
        def_registry::collected(s, T::idl_forest(s.mode)) is Some,
        0 <= i < T::idl_forest(s.mode).len(),
    ensures
        ({
            let node = T::idl_forest(s.mode)[i];
            let row = def_registry::collected(s, <Vec<T> as InterfaceRef>::idl_forest(s.mode));
            let array = def_registry::collected(s, <[T; N] as InterfaceRef>::idl_forest(s.mode));
            &&& row matches Some(after) && after.defs.contains((node.key, node.text))
            &&& array matches Some(after) && after.defs.contains((node.key, node.text))
        }),
{
    laws::law_walk_extends_registry(s, T::idl_forest(s.mode));
    laws::lemma_def_is_there(
        def_registry::collected(s, T::idl_forest(s.mode))->0.defs,
        T::idl_forest(s.mode)[i].key,
    );
}

/// After a walk for a message over a sequence or an array, each type that the
/// element leads to is registered under its own definition.
pub proof fn law_elements_of_sequences_are_in_messages<T: InterfaceElem, const N: usize>(
    m: def_registry::MsgState,
    i: int,
)
    requires
        laws::consistent(m.seen, m.visiting),
        def_registry::msg_collected(m, T::msg_forest()) is Some,
        0 <= i < T::msg_forest().len(),
    ensures
        ({
            let node = T::msg_forest()[i];
            let row = def_registry::msg_collected(m, <Vec<T> as InterfaceRef>::msg_forest());
            let array = def_registry::msg_collected(m, <[T; N] as InterfaceRef>::msg_forest());
            &&& row matches Some(after) && after.seen.contains((node.key, node.text))
            &&& array matches Some(after) && after.seen.contains((node.key, node.text))
        }),
{
    laws::law_message_walk_is_a_walk(m, T::msg_forest(), NsMode::Raw);
    laws::law_walk_extends_registry(laws::without_entries(m, NsMode::Raw), T::msg_forest());
    laws::lemma_def_is_there(
        def_registry::msg_collected(m, T::msg_forest())->0.seen,
        T::msg_forest()[i].key,
    );
}

/// A sequence is written around its element: in IDL between the brackets of a
/// sequence, in a message before empty brackets. An array is written in IDL as
/// its element, and in a message before brackets with its length. A sequence can
/// be written where its element can; an array moreover has an element.
pub proof fn law_sequences_are_written_around_elements<T: InterfaceElem, const N: usize>(
    mode: NsMode,
)
    ensures
        ({
            let element = T::idl_ref_text(mode);
            let row = <Vec<T> as InterfaceRef>::idl_ref_text(mode);
            &&& row.len() == element.len() + 10
            &&& row.subrange(0, 9) == "sequence<"@
            &&& row.subrange(9, 9 + element.len() as int) == element
            &&& row.last() == '>'
        }),
        ({
            let element = T::msg_ref_text();
            let row = <Vec<T> as InterfaceRef>::msg_ref_text();
            &&& row.len() == element.len() + 2
            &&& row.take(element.len() as int) == element
            &&& row[element.len() as int] == '['
            &&& row.last() == ']'
        }),
        <[T; N] as InterfaceRef>::idl_ref_text(mode) == T::idl_ref_text(mode),
        ({
            let element = T::msg_ref_text();
            let array = <[T; N] as InterfaceRef>::msg_ref_text();
            &&& array.len() > element.len() + 2
            &&& array.take(element.len() as int) == element
            &&& array[element.len() as int] == '['
            &&& array.last() == ']'
            &&& text::all_digits(
                array.subrange(element.len() as int + 1, array.len() - 1),
            )
            &&& text::digits_value(array.subrange(element.len() as int + 1, array.len() - 1)) == N
        }),
        <Vec<T> as InterfaceRef>::representable() <==> T::representable(),
        <[T; N] as InterfaceRef>::representable() <==> T::representable() && N >= 1,
{
    reveal_strlit("sequence<");
    reveal_strlit(">");
    reveal_strlit("[]");
    reveal_strlit("[");
    reveal_strlit("]");
    let row = <Vec<T> as InterfaceRef>::idl_ref_text(mode);
    let element = T::idl_ref_text(mode);
    assert(row.subrange(0, 9) =~= "sequence<"@);
    assert(row.subrange(9, 9 + element.len() as int) =~= element);
    let named = T::msg_ref_text();
    assert(<Vec<T> as InterfaceRef>::msg_ref_text().take(named.len() as int) =~= named);
    let array = <[T; N] as InterfaceRef>::msg_ref_text();
    assert(array.take(named.len() as int) =~= named);
    text::lemma_decimal_is_digits(N as nat);
    assert(array.subrange(named.len() as int + 1, array.len() - 1) =~= text::decimal(N as nat));
}

/// How the types without definitions of their own are written, in IDL and in a
/// message. They lead nowhere.
pub proof fn law_scalars_are_written(mode: NsMode)
    ensures
        <bool as InterfaceRef>::idl_ref_text(mode) == "boolean"@,
        <bool as InterfaceRef>::msg_ref_text() == "bool"@,
        <u8 as InterfaceRef>::idl_ref_text(mode) == "octet"@,
        <u8 as InterfaceRef>::msg_ref_text() == "uint8"@,
        <i8 as InterfaceRef>::idl_ref_text(mode) == "int8"@,
        <i8 as InterfaceRef>::msg_ref_text() == "int8"@,
        <i16 as InterfaceRef>::idl_ref_text(mode) == "short"@,
        <i16 as InterfaceRef>::msg_ref_text() == "int16"@,
        <u16 as InterfaceRef>::idl_ref_text(mode) == "unsigned short"@,
        <u16 as InterfaceRef>::msg_ref_text() == "uint16"@,
        <i32 as InterfaceRef>::idl_ref_text(mode) == "long"@,
        <i32 as InterfaceRef>::msg_ref_text() == "int32"@,
        <u32 as InterfaceRef>::idl_ref_text(mode) == "unsigned long"@,
        <u32 as InterfaceRef>::msg_ref_text() == "uint32"@,
        <i64 as InterfaceRef>::idl_ref_text(mode) == "long long"@,
        <i64 as InterfaceRef>::msg_ref_text() == "int64"@,
        <u64 as InterfaceRef>::idl_ref_text(mode) == "unsigned long long"@,
        <u64 as InterfaceRef>::msg_ref_text() == "uint64"@,
        <Float32 as InterfaceRef>::idl_ref_text(mode) == "float"@,
        <Float32 as InterfaceRef>::msg_ref_text() == "float32"@,
        <Float64 as InterfaceRef>::idl_ref_text(mode) == "double"@,
        <Float64 as InterfaceRef>::msg_ref_text() == "float64"@,
        <String as InterfaceRef>::idl_ref_text(mode) == "string"@,
        <String as InterfaceRef>::msg_ref_text() == "string"@,
{
}

/// A type without a definition of its own leads to none, and can be written.
pub proof fn law_scalars_lead_nowhere(mode: NsMode)
    ensures
        <bool as InterfaceRef>::idl_forest(mode).len() == 0,
        <bool as InterfaceRef>::msg_forest().len() == 0,
        <bool as InterfaceRef>::representable(),
        <u8 as InterfaceRef>::idl_forest(mode).len() == 0,
        <u8 as InterfaceRef>::msg_forest().len() == 0,
        <u8 as InterfaceRef>::representable(),
        <i32 as InterfaceRef>::idl_forest(mode).len() == 0,
        <i32 as InterfaceRef>::msg_forest().len() == 0,
        <i32 as InterfaceRef>::representable(),
        <u64 as InterfaceRef>::idl_forest(mode).len() == 0,
        <u64 as InterfaceRef>::msg_forest().len() == 0,
        <u64 as InterfaceRef>::representable(),
        <Float64 as InterfaceRef>::idl_forest(mode).len() == 0,
        <Float64 as InterfaceRef>::msg_forest().len() == 0,
        <Float64 as InterfaceRef>::representable(),
        <String as InterfaceRef>::idl_forest(mode).len() == 0,
        <String as InterfaceRef>::msg_forest().len() == 0,
        <String as InterfaceRef>::representable(),
{
}

} // verus!
