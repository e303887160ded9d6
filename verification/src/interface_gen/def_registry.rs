//! Collecting the definitions of a type and of what it depends on.
use crate::text;
use super::ns_mode::NsMode;
use super::InterfaceDef;
use vstd::prelude::*;

verus! {

/// A package and a type name.
pub type DefKey = (Seq<char>, Seq<char>);

/// One type with all that its fields lead to: what a registry is walked over.
pub struct DefNode {
    pub key: DefKey,
    /// How a message refers to the type.
    pub reference: Seq<char>,
    /// The type's own definition.
    pub text: Seq<char>,
    pub children: Seq<DefNode>,
}

/// What a registry says to a type that asks to be registered.
#[derive(Debug, Clone, Copy, PartialEq, Eq, Structural)]
pub enum Admission {
    /// Not met before: its fields come next.
    Fresh,
    /// Registered already, with the same definition.
    Known,
    /// Another type of the same name is registered, with another definition.
    Conflict,
    /// The type is being registered right now: it contains itself.
    Cycle,
}

/// The definition under `key`, where there is one.
pub open spec fn def_of(seen: Seq<(DefKey, Seq<char>)>, key: DefKey) -> Option<Seq<char>>
    decreases seen.len(),
{
    if seen.len() == 0 {
        None
    } else if seen.last().0 == key {
        Some(seen.last().1)
    } else {
        def_of(seen.drop_last(), key)
    }
}

pub open spec fn admission_of(
    seen: Seq<(DefKey, Seq<char>)>,
    visiting: Seq<DefKey>,
    key: DefKey,
    text: Seq<char>,
) -> Admission {
    match def_of(seen, key) {
        Some(existing) => if existing == text {
            Admission::Known
        } else {
            Admission::Conflict
        },
        None => if visiting.contains(key) {
            Admission::Cycle
        } else {
            Admission::Fresh
        },
    }
}

/// `package::Name`
pub open spec fn label(key: DefKey) -> Seq<char> {
    key.0 + "::"@ + key.1
}

/// The labels of a path, joined by arrows.
pub open spec fn path_text(path: Seq<DefKey>) -> Seq<char>
    decreases path.len(),
{
    if path.len() == 0 {
        Seq::empty()
    } else if path.len() == 1 {
        label(path[0])
    } else {
        path_text(path.drop_last()) + " -> "@ + label(path.last())
    }
}

/// The path from the first occurrence of `repeated` (from the start where
/// there is none) back to `repeated`.
pub open spec fn cycle_path(visiting: Seq<DefKey>, repeated: DefKey) -> Seq<DefKey> {
    let start = if visiting.contains(repeated) {
        visiting.index_of_first(repeated)->0
    } else {
        0
    };
    visiting.skip(start).push(repeated)
}

pub open spec fn conflict_text(key: DefKey, existing: Seq<char>, candidate: Seq<char>) -> Seq<char> {
    "conflicting DdsInterface definitions for "@ + key.0 + "/"@ + key.1
        + ":\n--- already registered ---\n"@ + existing + "--- conflicting ---\n"@ + candidate
        + "Two distinct Rust types resolve to the same (package, name); rename one with #[cdds(name = \"...\")]."@
}

pub open spec fn cycle_text(visiting: Seq<DefKey>, key: DefKey) -> Seq<char> {
    "cyclic DdsInterface type definition detected: "@ + path_text(cycle_path(visiting, key))
        + "\nROS 2 .msg/IDL cannot express recursive or mutually-recursive type definitions."@
}

/// Why a type is turned away, where it is.
pub open spec fn refusal_text(
    seen: Seq<(DefKey, Seq<char>)>,
    visiting: Seq<DefKey>,
    key: DefKey,
    text: Seq<char>,
) -> Option<Seq<char>> {
    match admission_of(seen, visiting, key, text) {
        Admission::Fresh => None,
        Admission::Known => None,
        Admission::Conflict => Some(conflict_text(key, def_of(seen, key)->0, text)),
        Admission::Cycle => Some(cycle_text(visiting, key)),
    }
}

/// A package and a type name.
#[derive(Debug)]
pub struct TypeKey {
    pub package: String,
    pub name: String,
}

impl View for TypeKey {
    type V = DefKey;

    open spec fn view(&self) -> DefKey {
        (self.package@, self.name@)
    }
}

impl TypeKey {
    pub fn new(package: &str, name: &str) -> (r: Self)
        ensures
            r@ == (package@, name@),
    {
        TypeKey { package: package.to_owned(), name: name.to_owned() }
    }

    fn is(&self, package: &str, name: &str) -> (r: bool)
        ensures
            r == (self@ == (package@, name@)),
    {
        text::same_text(self.package.as_str(), package) && text::same_text(self.name.as_str(), name)
    }
}

pub open spec fn keys(path: Seq<TypeKey>) -> Seq<DefKey> {
    path.map_values(|key: TypeKey| key@)
}

#[derive(Debug)]
struct SeenDef {
    key: TypeKey,
    text: String,
}

/// Which types are registered, and which are on the way.
#[derive(Debug)]
struct Ledger {
    seen: Vec<SeenDef>,
    visiting: Vec<TypeKey>,
}

spec fn seen_defs(seen: Seq<SeenDef>) -> Seq<(DefKey, Seq<char>)> {
    seen.map_values(|def: SeenDef| (def.key@, def.text@))
}

/// The labels of `path[from..]` and then that of `last`, joined by arrows.
fn path_label(path: &Vec<TypeKey>, from: usize, last: &TypeKey) -> (r: String)
    requires
        from <= path.len(),
    ensures
        r@ == path_text(keys(path@).skip(from as int).push(last@)),
{
    let mut s = String::new();
    let ghost all = keys(path@).skip(from as int).push(last@);
    let mut i: usize = from;
    while i < path.len()
        invariant
            from <= i <= path.len(),
            all == keys(path@).skip(from as int).push(last@),
            s@ == if i == from { Seq::<char>::empty() } else { path_text(all.take(i - from)) + " -> "@ },
        decreases path.len() - i,
    {
        s.append(path[i].package.as_str());
        s.append("::");
        s.append(path[i].name.as_str());
        s.append(" -> ");
        proof {
            let part = all.take(i + 1 - from);
            assert(part.last() == path@[i as int]@);
            assert(part.drop_last() =~= all.take(i - from));
            assert(s@ =~= path_text(part) + " -> "@);
        }
        i = i + 1;
    }
    s.append(last.package.as_str());
    s.append("::");
    s.append(last.name.as_str());
    proof {
        assert(all.drop_last() =~= all.take(path.len() - from));
        assert(s@ =~= path_text(all));
    }
    s
}

/// The first place of a type on a path.
fn first_position(path: &Vec<TypeKey>, package: &str, name: &str) -> (r: Option<usize>)
    ensures
        match r {
            Some(i) => i < path.len() && keys(path@).contains((package@, name@)) && keys(
                path@,
            ).index_of_first((package@, name@)) == Some(i as int),
            None => !keys(path@).contains((package@, name@)),
        },
{
    let ghost key = (package@, name@);
    let mut i: usize = 0;
    while i < path.len()
        invariant
            i <= path.len(),
            key == (package@, name@),
            forall|j: int| 0 <= j < i ==> keys(path@)[j] != key,
        decreases path.len() - i,
    {
        assert(keys(path@)[i as int] == path@[i as int]@);
        if path[i].is(package, name) {
            proof {
                assert(keys(path@)[i as int] == key);
                assert(keys(path@).contains(key));
                keys(path@).index_of_first_ensures(key);
            }
            return Some(i);
        }
        i = i + 1;
    }
    None
}

impl Ledger {
    spec fn defs(&self) -> Seq<(DefKey, Seq<char>)> {
        seen_defs(self.seen@)
    }

    spec fn path(&self) -> Seq<DefKey> {
        keys(self.visiting@)
    }

    fn new() -> (r: Self)
        ensures
            r.defs() == Seq::<(DefKey, Seq<char>)>::empty(),
            r.path() == Seq::<DefKey>::empty(),
    {
        let r = Ledger { seen: Vec::new(), visiting: Vec::new() };
        assert(r.defs() =~= Seq::empty());
        assert(r.path() =~= Seq::empty());
        r
    }

    /// Where the definition of a type stands.
    fn find(&self, package: &str, name: &str) -> (r: Option<usize>)
        ensures
            match r {
                Some(i) => i < self.seen.len() && def_of(self.defs(), (package@, name@)) == Some(
                    self.seen@[i as int].text@,
                ),
                None => def_of(self.defs(), (package@, name@)) is None,
            },
    {
        let mut i: usize = self.seen.len();
        assert(self.defs().take(i as int) =~= self.defs());
        while i > 0
            invariant
                i <= self.seen.len(),
                def_of(self.defs(), (package@, name@)) == def_of(
                    self.defs().take(i as int),
                    (package@, name@),
                ),
            decreases i,
        {
            i = i - 1;
            proof {
                let part = self.defs().take(i + 1);
                assert(part.last() == (self.seen@[i as int].key@, self.seen@[i as int].text@));
                assert(part.drop_last() =~= self.defs().take(i as int));
            }
            if self.seen[i].key.is(package, name) {
                return Some(i);
            }
        }
        None
    }

    fn admission(&self, package: &str, name: &str, text: &str) -> (r: Admission)
        ensures
            r == admission_of(self.defs(), self.path(), (package@, name@), text@),
    {
        match self.find(package, name) {
            Some(i) => if text::same_text(self.seen[i].text.as_str(), text) {
                Admission::Known
            } else {
                Admission::Conflict
            },
            None => match first_position(&self.visiting, package, name) {
                Some(_) => Admission::Cycle,
                None => Admission::Fresh,
            },
        }
    }

    fn is_innermost(&self, package: &str, name: &str) -> (r: bool)
        ensures
            r == (self.path().len() > 0 && self.path().last() == (package@, name@)),
    {
        let len: usize = self.visiting.len();
        len > 0 && self.visiting[len - 1].is(package, name)
    }

    fn refusal(&self, package: &str, name: &str, text: &str) -> (r: Option<String>)
        ensures
            r is Some <==> refusal_text(self.defs(), self.path(), (package@, name@), text@) is Some,
            r matches Some(s) ==> refusal_text(
                self.defs(),
                self.path(),
                (package@, name@),
                text@,
            ) == Some(s@),
    {
        match self.find(package, name) {
            Some(i) => {
                if text::same_text(self.seen[i].text.as_str(), text) {
                    return None;
                }
                let mut s = "conflicting DdsInterface definitions for ".to_owned();
                s.append(package);
                s.append("/");
                s.append(name);
                s.append(":\n--- already registered ---\n");
                s.append(self.seen[i].text.as_str());
                s.append("--- conflicting ---\n");
                s.append(text);
                s.append(
                    "Two distinct Rust types resolve to the same (package, name); rename one with #[cdds(name = \"...\")].",
                );
                Some(s)
            },
            None => match first_position(&self.visiting, package, name) {
                Some(_) => {
                    let mut s = "cyclic DdsInterface type definition detected: ".to_owned();
                    let path = DefRegistry::format_cycle(&self.visiting, &TypeKey::new(package, name));
                    s.append(path.as_str());
                    s.append(
                        "\nROS 2 .msg/IDL cannot express recursive or mutually-recursive type definitions.",
                    );
                    Some(s)
                },
                None => None,
            },
        }
    }

    fn start(&mut self, package: &str, name: &str)
        ensures
            final(self).defs() == old(self).defs(),
            final(self).path() == old(self).path().push((package@, name@)),
    {
        self.visiting.push(TypeKey::new(package, name));
        assert(self.path() =~= old(self).path().push((package@, name@)));
    }

    fn end(&mut self, package: &str, name: &str, text: &str)
        requires
            old(self).path().len() > 0,
        ensures
            final(self).defs() == old(self).defs().push(((package@, name@), text@)),
            final(self).path() == old(self).path().drop_last(),
    {
        let _ = self.visiting.pop();
        self.seen.push(SeenDef { key: TypeKey::new(package, name), text: text.to_owned() });
        assert(self.path() =~= old(self).path().drop_last());
        assert(self.defs() =~= old(self).defs().push(((package@, name@), text@)));
    }
}

/// What an IDL registry holds.
#[verifier::ext_equal]
pub struct DefState {
    pub mode: NsMode,
    /// The finished definitions, in the order in which they are written out.
    pub defs: Seq<(DefKey, Seq<char>)>,
    /// The types whose fields are being registered, outermost first.
    pub visiting: Seq<DefKey>,
}

impl DefState {
    pub open spec fn empty(mode: NsMode) -> Self {
        DefState { mode, defs: Seq::empty(), visiting: Seq::empty() }
    }

    pub open spec fn admission(self, key: DefKey, text: Seq<char>) -> Admission {
        admission_of(self.defs, self.visiting, key, text)
    }

    pub open spec fn admits(self, key: DefKey, text: Seq<char>) -> bool {
        self.admission(key, text) is Fresh || self.admission(key, text) is Known
    }

    pub open spec fn entered(self, key: DefKey) -> Self {
        DefState { visiting: self.visiting.push(key), ..self }
    }

    pub open spec fn finished(self, key: DefKey, text: Seq<char>) -> Self {
        DefState {
            visiting: self.visiting.drop_last(),
            defs: self.defs.push((key, text)),
            ..self
        }
    }

    /// The text of all definitions.
    pub open spec fn written(self) -> Seq<char> {
        text::joined(self.defs.map_values(|def: (DefKey, Seq<char>)| def.1))
    }
}

/// What a registry holds after a walk over `nodes`; `None` where the walk
/// meets a conflict or a cycle.
pub open spec fn collected(s: DefState, nodes: Seq<DefNode>) -> Option<DefState>
    decreases nodes,
{
    if nodes.len() == 0 {
        Some(s)
    } else {
        match collected(s, nodes.drop_last()) {
            None => None,
            Some(before) => collected_one(before, nodes.last()),
        }
    }
}

/// What a registry holds after a walk over one type and what it leads to.
pub open spec fn collected_one(s: DefState, node: DefNode) -> Option<DefState>
    decreases node,
{
    match s.admission(node.key, node.text) {
        Admission::Fresh => match collected(s.entered(node.key), node.children) {
            None => None,
            Some(inner) => Some(inner.finished(node.key, node.text)),
        },
        Admission::Known => Some(s),
        _ => None,
    }
}

/// What a message registry holds.
#[verifier::ext_equal]
pub struct MsgState {
    pub seen: Seq<(DefKey, Seq<char>)>,
    pub visiting: Seq<DefKey>,
    /// Reference and definition of each type, in the order of the output.
    pub entries: Seq<(Seq<char>, Seq<char>)>,
}

impl MsgState {
    pub open spec fn empty() -> Self {
        MsgState { seen: Seq::empty(), visiting: Seq::empty(), entries: Seq::empty() }
    }

    pub open spec fn admission(self, key: DefKey, text: Seq<char>) -> Admission {
        admission_of(self.seen, self.visiting, key, text)
    }

    pub open spec fn admits(self, key: DefKey, text: Seq<char>) -> bool {
        self.admission(key, text) is Fresh || self.admission(key, text) is Known
    }

    pub open spec fn entered(self, key: DefKey, reference: Seq<char>, text: Seq<char>) -> Self {
        MsgState {
            visiting: self.visiting.push(key),
            entries: self.entries.push((reference, text)),
            ..self
        }
    }

    pub open spec fn finished(self, key: DefKey, text: Seq<char>) -> Self {
        MsgState {
            visiting: self.visiting.drop_last(),
            seen: self.seen.push((key, text)),
            ..self
        }
    }
}

/// What a message registry holds after a walk over `nodes`; `None` where the
/// walk meets a conflict or a cycle.
pub open spec fn msg_collected(s: MsgState, nodes: Seq<DefNode>) -> Option<MsgState>
    decreases nodes,
{
    if nodes.len() == 0 {
        Some(s)
    } else {
        match msg_collected(s, nodes.drop_last()) {
            None => None,
            Some(before) => msg_collected_one(before, nodes.last()),
        }
    }
}

pub open spec fn msg_collected_one(s: MsgState, node: DefNode) -> Option<MsgState>
    decreases node,
{
    match s.admission(node.key, node.text) {
        Admission::Fresh => match msg_collected(
            s.entered(node.key, node.reference, node.text),
            node.children,
        ) {
            None => None,
            Some(inner) => Some(inner.finished(node.key, node.text)),
        },
        Admission::Known => Some(s),
        _ => None,
    }
}

/// One definition behind a separator line and a header with its reference.
pub open spec fn headed(entry: (Seq<char>, Seq<char>)) -> Seq<char> {
    text::repeated("="@, 80) + "\n"@ + "MSG: "@ + entry.0 + "\n"@ + entry.1
}

/// The first definition as it is, and each further one behind its header.
pub open spec fn rendered(entries: Seq<(Seq<char>, Seq<char>)>) -> Seq<char>
    decreases entries.len(),
{
    if entries.len() == 0 {
        Seq::empty()
    } else if entries.len() == 1 {
        entries[0].1
    } else {
        rendered(entries.drop_last()) + headed(entries.last())
    }
}

/// Collects the IDL definitions of a type and of its dependencies.
#[derive(Debug)]
pub struct DefRegistry {
    ledger: Ledger,
    mode: NsMode,
}

impl View for DefRegistry {
    type V = DefState;

    closed spec fn view(&self) -> DefState {
        DefState { mode: self.mode, defs: self.ledger.defs(), visiting: self.ledger.path() }
    }
}

impl Default for DefRegistry {
    fn default() -> (r: Self)
        ensures
            r@ == DefState::empty(NsMode::Raw),
    {
        DefRegistry::new(NsMode::Raw)
    }
}

impl DefRegistry {
    pub fn new(mode: NsMode) -> (r: Self)
        ensures
            r@ == DefState::empty(mode),
    {
        DefRegistry { ledger: Ledger::new(), mode }
    }

    pub fn mode(&self) -> (r: NsMode)
        ensures
            r == self@.mode,
    {
        self.mode
    }

    /// How many types are registered.
    pub fn entry_count(&self) -> (r: usize)
        ensures
            r == self@.defs.len(),
    {
        self.ledger.seen.len()
    }

    /// Starts the registration of a type. `true` means that the caller
    /// registers the types of its fields next and then calls `finish`;
    /// `false`, that the type is there already.
    pub fn enter<T: InterfaceDef>(&mut self) -> (r: bool)
        requires
            old(self)@.admits(T::key(), T::idl_text(old(self)@.mode)),
        ensures
            r == (old(self)@.admission(T::key(), T::idl_text(old(self)@.mode)) is Fresh),
            final(self)@ == if r {
                old(self)@.entered(T::key())
            } else {
                old(self)@
            },
    {
        let candidate = T::idl_def(self.mode);
        self.enter_named(T::package(), T::name(), candidate.as_str())
    }

    /// As `enter`, for a type given by its names and its definition.
    pub fn enter_named(&mut self, package: &str, name: &str, text: &str) -> (r: bool)
        requires
            old(self)@.admits((package@, name@), text@),
        ensures
            r == (old(self)@.admission((package@, name@), text@) is Fresh),
            final(self)@ == if r {
                old(self)@.entered((package@, name@))
            } else {
                old(self)@
            },
    {
        match self.ledger.admission(package, name, text) {
            Admission::Fresh => {
                self.ledger.start(package, name);
                true
            },
            _ => false,
        }
    }

    /// Why a type cannot be entered: another type of the same name is
    /// registered with another definition, or the type contains itself.
    pub fn refusal<T: InterfaceDef>(&self) -> (r: Option<String>)
        ensures
            r is Some <==> !self@.admits(T::key(), T::idl_text(self@.mode)),
            r matches Some(s) ==> refusal_text(
                self@.defs,
                self@.visiting,
                T::key(),
                T::idl_text(self@.mode),
            ) == Some(s@),
    {
        let candidate = T::idl_def(self.mode);
        self.ledger.refusal(T::package(), T::name(), candidate.as_str())
    }

    /// Ends the registration of the type that was entered last, and appends
    /// its definition.
    pub fn finish<T: InterfaceDef>(&mut self)
        requires
            old(self)@.visiting.len() > 0,
            old(self)@.visiting.last() == T::key(),
        ensures
            final(self)@ == old(self)@.finished(T::key(), T::idl_text(old(self)@.mode)),
    {
        let def = T::idl_def(self.mode);
        self.finish_named(T::package(), T::name(), def.as_str());
    }

    /// As `finish`, for a type given by its names and its definition.
    pub fn finish_named(&mut self, package: &str, name: &str, text: &str)
        requires
            old(self)@.visiting.len() > 0,
            old(self)@.visiting.last() == (package@, name@),
        ensures
            final(self)@ == old(self)@.finished((package@, name@), text@),
    {
        self.ledger.end(package, name, text);
    }

    /// Whether a type is the one that was entered last and not finished yet.
    pub fn is_innermost<T: InterfaceDef>(&self) -> (r: bool)
        ensures
            r == (self@.visiting.len() > 0 && self@.visiting.last() == T::key()),
    {
        self.ledger.is_innermost(T::package(), T::name())
    }

    /// Why a type cannot be finished: it is not the one that was entered last.
    pub fn finish_refusal<T: InterfaceDef>(&self) -> (r: Option<String>)
        ensures
            text::text_of(r) == if self@.visiting.len() > 0 && self@.visiting.last() == T::key() {
                None
            } else {
                Some("DefRegistry::finish called out of order or without matching enter"@)
            },
    {
        if self.is_innermost::<T>() {
            None
        } else {
            Some("DefRegistry::finish called out of order or without matching enter".to_owned())
        }
    }

    /// The way from the first occurrence of `repeated` in `visiting` back to
    /// `repeated`.
    pub fn format_cycle(visiting: &Vec<TypeKey>, repeated: &TypeKey) -> (r: String)
        ensures
            r@ == path_text(cycle_path(keys(visiting@), repeated@)),
    {
        let start: usize = match first_position(
            visiting,
            repeated.package.as_str(),
            repeated.name.as_str(),
        ) {
            Some(i) => i,
            None => 0,
        };
        proof {
            if keys(visiting@).contains(repeated@) {
                keys(visiting@).index_of_first_ensures(repeated@);
            }
        }
        path_label(visiting, start, repeated)
    }

    /// The text of all definitions.
    pub fn written(&self) -> (r: String)
        ensures
            r@ == self@.written(),
    {
        let ghost all = self@.defs.map_values(|def: (DefKey, Seq<char>)| def.1);
        let mut s = String::new();
        let mut i: usize = 0;
        assert(all.take(0) =~= Seq::empty());
        while i < self.ledger.seen.len()
            invariant
                i <= self.ledger.seen.len(),
                all == self@.defs.map_values(|def: (DefKey, Seq<char>)| def.1),
                s@ == text::joined(all.take(i as int)),
            decreases self.ledger.seen.len() - i,
        {
            s.append(self.ledger.seen[i].text.as_str());
            proof {
                let part = all.take(i + 1);
                assert(part.drop_last() =~= all.take(i as int));
                assert(part.last() == self.ledger.seen@[i as int].text@);
            }
            i = i + 1;
        }
        assert(all.take(i as int) =~= all);
        s
    }
}

/// Collects the message definitions of a type and of its dependencies.
#[derive(Debug)]
pub struct MsgDefRegistry {
    ledger: Ledger,
    entries: Vec<MsgEntry>,
}

#[derive(Debug)]
struct MsgEntry {
    reference: String,
    text: String,
}

spec fn entry_texts(entries: Seq<MsgEntry>) -> Seq<(Seq<char>, Seq<char>)> {
    entries.map_values(|entry: MsgEntry| (entry.reference@, entry.text@))
}

impl View for MsgDefRegistry {
    type V = MsgState;

    closed spec fn view(&self) -> MsgState {
        MsgState {
            seen: self.ledger.defs(),
            visiting: self.ledger.path(),
            entries: entry_texts(self.entries@),
        }
    }
}

impl Default for MsgDefRegistry {
    fn default() -> (r: Self)
        ensures
            r@ == MsgState::empty(),
    {
        let r = MsgDefRegistry { ledger: Ledger::new(), entries: Vec::new() };
        assert(entry_texts(r.entries@) =~= Seq::empty());
        r
    }
}

impl MsgDefRegistry {
    pub fn new() -> (r: Self)
        ensures
            r@ == MsgState::empty(),
    {
        Self::default()
    }

    /// Starts the registration of a type and appends its definition. `true`
    /// means that the caller registers the types of its fields next and then
    /// calls `finish`; `false`, that the type is there already.
    pub fn enter<T: InterfaceDef>(&mut self) -> (r: bool)
        requires
            T::representable(),
            old(self)@.admits(T::key(), T::msg_text()),
        ensures
            r == (old(self)@.admission(T::key(), T::msg_text()) is Fresh),
            final(self)@ == if r {
                old(self)@.entered(T::key(), T::msg_ref_text(), T::msg_text())
            } else {
                old(self)@
            },
    {
        let reference = T::msg_ref();
        let candidate = T::msg_def();
        self.enter_named(T::package(), T::name(), reference.as_str(), candidate.as_str())
    }

    /// As `enter`, for a type given by its names, its reference and its
    /// definition.
    pub fn enter_named(&mut self, package: &str, name: &str, reference: &str, text: &str) -> (r:
        bool)
        requires
            old(self)@.admits((package@, name@), text@),
        ensures
            r == (old(self)@.admission((package@, name@), text@) is Fresh),
            final(self)@ == if r {
                old(self)@.entered((package@, name@), reference@, text@)
            } else {
                old(self)@
            },
    {
        match self.ledger.admission(package, name, text) {
            Admission::Fresh => {
                self.ledger.start(package, name);
                let entry = MsgEntry { reference: reference.to_owned(), text: text.to_owned() };
                self.entries.push(entry);
                assert(entry_texts(self.entries@) =~= entry_texts(old(self).entries@).push(
                    (reference@, text@),
                ));
                true
            },
            _ => false,
        }
    }

    /// Why a type cannot be entered: another type of the same name is
    /// registered with another definition, or the type contains itself.
    pub fn refusal<T: InterfaceDef>(&self) -> (r: Option<String>)
        ensures
            r is Some <==> !self@.admits(T::key(), T::msg_text()),
            r matches Some(s) ==> refusal_text(
                self@.seen,
                self@.visiting,
                T::key(),
                T::msg_text(),
            ) == Some(s@),
    {
        let candidate = T::msg_def();
        self.ledger.refusal(T::package(), T::name(), candidate.as_str())
    }

    /// Ends the registration of the type that was entered last.
    pub fn finish<T: InterfaceDef>(&mut self)
        requires
            old(self)@.visiting.len() > 0,
            old(self)@.visiting.last() == T::key(),
        ensures
            final(self)@ == old(self)@.finished(T::key(), T::msg_text()),
    {
        let def = T::msg_def();
        self.finish_named(T::package(), T::name(), def.as_str());
    }

    /// As `finish`, for a type given by its names and its definition.
    pub fn finish_named(&mut self, package: &str, name: &str, text: &str)
        requires
            old(self)@.visiting.len() > 0,
            old(self)@.visiting.last() == (package@, name@),
        ensures
            final(self)@ == old(self)@.finished((package@, name@), text@),
    {
        self.ledger.end(package, name, text);
    }

    /// Whether a type is the one that was entered last and not finished yet.
    pub fn is_innermost<T: InterfaceDef>(&self) -> (r: bool)
        ensures
            r == (self@.visiting.len() > 0 && self@.visiting.last() == T::key()),
    {
        self.ledger.is_innermost(T::package(), T::name())
    }

    /// Why a type cannot be finished: it is not the one that was entered last.
    pub fn finish_refusal<T: InterfaceDef>(&self) -> (r: Option<String>)
        ensures
            text::text_of(r) == if self@.visiting.len() > 0 && self@.visiting.last() == T::key() {
                None
            } else {
                Some("MsgDefRegistry::finish called out of order or without matching enter"@)
            },
    {
        if self.is_innermost::<T>() {
            None
        } else {
            Some("MsgDefRegistry::finish called out of order or without matching enter".to_owned())
        }
    }

    /// How many types are registered.
    pub fn entry_count(&self) -> (r: usize)
        ensures
            r == self@.entries.len(),
    {
        self.entries.len()
    }

    /// The definitions as one text: the first as it is, each further one
    /// behind a header.
    pub fn render(&self) -> (r: String)
        ensures
            r@ == rendered(self@.entries),
    {
        let ghost all = self@.entries;
        let mut s = String::new();
        let mut i: usize = 0;
        while i < self.entries.len()
            invariant
                i <= self.entries.len(),
                all == self@.entries,
                s@ == rendered(all.take(i as int)),
            decreases self.entries.len() - i,
        {
            if i > 0 {
                text::push_repeated(&mut s, "=", 80);
                s.append("\n");
                s.append("MSG: ");
                s.append(self.entries[i].reference.as_str());
                s.append("\n");
            }
            s.append(self.entries[i].text.as_str());
            proof {
                let part = all.take(i + 1);
                assert(part.drop_last() =~= all.take(i as int));
                assert(part.last() == (
                    self.entries@[i as int].reference@,
                    self.entries@[i as int].text@,
                ));
                assert(s@ =~= rendered(part));
            }
            i = i + 1;
        }
        assert(all.take(i as int) =~= all);
        s
    }
}

/// A registry holds under a name what it took last under it, and nothing where it
/// never took anything.
pub proof fn law_last_definition_of_a_name_counts(seen: Seq<(DefKey, Seq<char>)>, key: DefKey, i: int)
    requires
        0 <= i < seen.len(),
    ensures
        seen[i].0 == key && (forall|j: int| i < j < seen.len() ==> #[trigger] seen[j].0 != key)
            ==> def_of(seen, key) == Some(seen[i].1),
        (forall|j: int| 0 <= j < seen.len() ==> #[trigger] seen[j].0 != key) ==> def_of(seen, key)
            is None,
    decreases seen.len(),
{
    let front = seen.drop_last();
    assert(seen.last() == seen[seen.len() - 1]);
    assert(forall|j: int| 0 <= j < front.len() ==> #[trigger] front[j] == seen[j]);
    if forall|j: int| 0 <= j < seen.len() ==> #[trigger] seen[j].0 != key {
        assert(forall|j: int| 0 <= j < front.len() ==> #[trigger] front[j].0 != key);
        if front.len() > 0 {
            law_last_definition_of_a_name_counts(front, key, 0);
        }
    }
    if seen[i].0 == key && (forall|j: int| i < j < seen.len() ==> #[trigger] seen[j].0 != key) {
        if i < seen.len() - 1 {
            assert(seen[seen.len() - 1].0 != key);
            assert(forall|j: int| i < j < front.len() ==> #[trigger] front[j].0 != key);
            law_last_definition_of_a_name_counts(front, key, i);
        }
    }
}

/// A type that was registered is known where its definition is the same, and
/// conflicts where it is not. One that was not is a cycle where it is on the way,
/// and fresh otherwise. Only a conflict and a cycle are turned away.
pub proof fn law_which_types_are_admitted(
    seen: Seq<(DefKey, Seq<char>)>,
    visiting: Seq<DefKey>,
    key: DefKey,
    text: Seq<char>,
)
    ensures
        def_of(seen, key) == Some(text) <==> admission_of(seen, visiting, key, text) is Known,
        def_of(seen, key) is Some && def_of(seen, key)->0 != text <==> admission_of(
            seen,
            visiting,
            key,
            text,
        ) is Conflict,
        def_of(seen, key) is None && (exists|i: int|
            0 <= i < visiting.len() && #[trigger] visiting[i] == key) <==> admission_of(
            seen,
            visiting,
            key,
            text,
        ) is Cycle,
        refusal_text(seen, visiting, key, text) is Some <==> admission_of(
            seen,
            visiting,
            key,
            text,
        ) is Conflict || admission_of(seen, visiting, key, text) is Cycle,
{
}

/// A refusal names the two definitions that conflict, or the way on which a type
/// leads back to itself.
pub proof fn law_refusals_say_what_is_wrong(
    seen: Seq<(DefKey, Seq<char>)>,
    visiting: Seq<DefKey>,
    key: DefKey,
    text: Seq<char>,
    at: int,
)
    requires
        def_of(seen, key) is None ==> 0 <= at < visiting.len() && visiting[at] == key && forall|j: int|
            0 <= j < at ==> #[trigger] visiting[j] != key,
    ensures
        def_of(seen, key) matches Some(existing) ==> (existing != text ==> refusal_text(
            seen,
            visiting,
            key,
            text,
        ) == Some(
            "conflicting DdsInterface definitions for "@ + key.0 + "/"@ + key.1
                + ":\n--- already registered ---\n"@ + existing + "--- conflicting ---\n"@ + text
                + "Two distinct Rust types resolve to the same (package, name); rename one with #[cdds(name = \"...\")]."@,
        )),
        def_of(seen, key) is None ==> refusal_text(seen, visiting, key, text) == Some(
            "cyclic DdsInterface type definition detected: "@ + path_text(
                visiting.subrange(at, visiting.len() as int) + seq![key],
            )
                + "\nROS 2 .msg/IDL cannot express recursive or mutually-recursive type definitions."@,
        ),
{
    if def_of(seen, key) is None {
        assert(visiting.contains(key));
        visiting.index_of_first_ensures(key);
        let first = visiting.index_of_first(key)->0;
        assert(visiting[first] == key);
        assert(first == at);
        assert(cycle_path(visiting, key) =~= visiting.subrange(at, visiting.len() as int) + seq![
            key,
        ]);
    }
}

/// A way is written as its types, package and name parted by colons, with an arrow
/// from each to the next.
pub proof fn law_ways_are_written_with_arrows(path: Seq<DefKey>, next: DefKey)
    ensures
        path.len() == 0 ==> path_text(path.push(next)) == next.0 + "::"@ + next.1,
        path.len() > 0 ==> path_text(path.push(next)) == path_text(path) + " -> "@ + next.0 + "::"@
            + next.1,
{
    assert(path.push(next).drop_last() =~= path);
    if path.len() > 0 {
        assert(path_text(path.push(next)) =~= path_text(path) + " -> "@ + next.0 + "::"@ + next.1);
    }
}

/// A new registry holds nothing. A type that is entered is on the way and not yet
/// registered; one that is finished has left the way, and its definition stands
/// behind those that were there.
pub proof fn law_registration_begins_and_ends(s: DefState, key: DefKey, text: Seq<char>, mode: NsMode)
    ensures
        DefState::empty(mode).mode == mode,
        DefState::empty(mode).defs.len() == 0,
        DefState::empty(mode).visiting.len() == 0,
        s.entered(key).visiting == s.visiting + seq![key],
        s.entered(key).defs == s.defs,
        s.entered(key).mode == s.mode,
        s.entered(key).finished(key, text).visiting == s.visiting,
        s.entered(key).finished(key, text).mode == s.mode,
        s.finished(key, text).defs == s.defs + seq![(key, text)],
        s.visiting.len() > 0 ==> s.finished(key, text).visiting.len() == s.visiting.len() - 1,
        s.admits(key, text) <==> s.admission(key, text) is Fresh || s.admission(key, text) is Known,
{
    assert(s.entered(key).finished(key, text).visiting =~= s.visiting);
    assert(s.entered(key).visiting =~= s.visiting + seq![key]);
    assert(s.finished(key, text).defs =~= s.defs + seq![(key, text)]);
}

/// The text of a registry is the definitions in the order in which they were
/// finished, each as it was given.
pub proof fn law_text_is_the_definitions(s: DefState, key: DefKey, text: Seq<char>, mode: NsMode)
    ensures
        DefState::empty(mode).written().len() == 0,
        s.finished(key, text).written() == s.written() + text,
{
    let of = |def: (DefKey, Seq<char>)| def.1;
    let more = s.finished(key, text).defs.map_values(of);
    assert(more.drop_last() =~= s.defs.map_values(of));
    assert(more.last() == text);
    assert(DefState::empty(mode).defs.map_values(of) =~= Seq::empty());
}

/// A new message registry holds nothing. A type that is entered is on the way, and
/// its definition stands at once behind those that were there; one that is
/// finished has left the way and is registered.
pub proof fn law_message_registration_begins_and_ends(
    s: MsgState,
    key: DefKey,
    reference: Seq<char>,
    text: Seq<char>,
)
    ensures
        MsgState::empty().seen.len() == 0,
        MsgState::empty().visiting.len() == 0,
        MsgState::empty().entries.len() == 0,
        s.entered(key, reference, text).visiting == s.visiting + seq![key],
        s.entered(key, reference, text).entries == s.entries + seq![(reference, text)],
        s.entered(key, reference, text).seen == s.seen,
        s.entered(key, reference, text).finished(key, text).visiting == s.visiting,
        s.finished(key, text).seen == s.seen + seq![(key, text)],
        s.finished(key, text).entries == s.entries,
        s.visiting.len() > 0 ==> s.finished(key, text).visiting.len() == s.visiting.len() - 1,
        s.admits(key, text) <==> s.admission(key, text) is Fresh || s.admission(key, text) is Known,
{
    assert(s.entered(key, reference, text).finished(key, text).visiting =~= s.visiting);
    assert(s.entered(key, reference, text).visiting =~= s.visiting + seq![key]);
    assert(s.entered(key, reference, text).entries =~= s.entries + seq![(reference, text)]);
    assert(s.finished(key, text).seen =~= s.seen + seq![(key, text)]);
}

/// A message is written as its first definition, and each further one behind a
/// line of eighty equals signs and a line with its reference.
pub proof fn law_message_definitions_have_headers(
    entries: Seq<(Seq<char>, Seq<char>)>,
    reference: Seq<char>,
    text: Seq<char>,
)
    ensures
        entries.len() == 0 ==> rendered(entries).len() == 0,
        entries.len() == 0 ==> rendered(entries.push((reference, text))) == text,
        entries.len() > 0 ==> rendered(entries.push((reference, text))) == rendered(entries)
            + Seq::new(80, |i: int| '=') + "\nMSG: "@ + reference + "\n"@ + text,
{
    assert(entries.push((reference, text)).drop_last() =~= entries);
    if entries.len() > 0 {
        reveal_strlit("=");
        reveal_strlit("\n");
        reveal_strlit("MSG: ");
        reveal_strlit("\nMSG: ");
        assert("\n"@ + "MSG: "@ =~= "\nMSG: "@);
        lemma_line_of('=', 80);
        assert("="@ =~= seq!['=']);
        assert(text::repeated("="@, 80) == Seq::new(80, |i: int| '='));
        assert(rendered(entries.push((reference, text))) =~= rendered(entries) + Seq::new(
            80,
            |i: int| '=',
        ) + "\nMSG: "@ + reference + "\n"@ + text);
    }
}

proof fn lemma_line_of(c: char, count: nat)
    ensures
        text::repeated(seq![c], count) == Seq::new(count, |i: int| c),
    decreases count,
{
    if count > 0 {
        lemma_line_of(c, (count - 1) as nat);
    }
    assert(text::repeated(seq![c], count) =~= Seq::new(count, |i: int| c));
}

/// A cycle is the part of the way from where a type was first met back to that
/// type. Where it was not met, it is the whole way and the type.
pub proof fn law_cycle_leads_back(visiting: Seq<DefKey>, repeated: DefKey, at: int)
    ensures
        0 <= at < visiting.len() && visiting[at] == repeated && (forall|j: int|
            0 <= j < at ==> #[trigger] visiting[j] != repeated) ==> cycle_path(visiting, repeated)
            == visiting.subrange(at, visiting.len() as int) + seq![repeated],
        (forall|j: int| 0 <= j < visiting.len() ==> #[trigger] visiting[j] != repeated)
            ==> cycle_path(visiting, repeated) == visiting + seq![repeated],
{
    if 0 <= at < visiting.len() && visiting[at] == repeated && (forall|j: int|
        0 <= j < at ==> #[trigger] visiting[j] != repeated) {
        assert(visiting.contains(repeated));
        visiting.index_of_first_ensures(repeated);
        let first = visiting.index_of_first(repeated)->0;
        assert(visiting[first] == repeated);
        assert(first == at);
        assert(cycle_path(visiting, repeated) =~= visiting.subrange(at, visiting.len() as int)
            + seq![repeated]);
    }
    if forall|j: int| 0 <= j < visiting.len() ==> #[trigger] visiting[j] != repeated {
        assert(!visiting.contains(repeated));
        assert(cycle_path(visiting, repeated) =~= visiting + seq![repeated]);
    }
}

} // verus!
