//! How a type's name is placed into IDL namespaces.
use crate::text;
use vstd::prelude::*;

verus! {

/// The namespace layout of the generated IDL.
#[derive(Debug, Clone, Copy, PartialEq, Eq)]
pub enum NsMode {
    /// `package::Name`
    Raw,
    /// `package::middle::Name`; the middle part may itself hold several
    /// segments, separated by `::`.
    WithMiddle(&'static str),
    /// As `WithMiddle`, with a suffix behind every type name.
    WithMiddleSuffix { middle: &'static str, suffix: &'static str },
}

impl Default for NsMode {
    fn default() -> (r: Self)
        ensures
            r == NsMode::Raw,
    {
        NsMode::Raw
    }
}

/// Whether `::` stands in `s` at position `i`.
pub open spec fn separator_at(s: Seq<char>, i: int) -> bool {
    0 <= i && i + 1 < s.len() && s[i] == ':' && s[i + 1] == ':'
}

/// The first position from `from` on at which `::` stands, or the length of
/// `s` where there is none.
pub open spec fn next_separator(s: Seq<char>, from: int) -> int
    decreases s.len() - from,
{
    if from >= s.len() {
        s.len() as int
    } else if separator_at(s, from) {
        from
    } else {
        next_separator(s, from + 1)
    }
}

/// The parts of `s` from `from` on, cut at every `::`, empty parts included.
pub open spec fn parts_from(s: Seq<char>, from: int) -> Seq<Seq<char>>
    decreases s.len() - from,
    when 0 <= from <= s.len()
    via parts_from_decreases
{
    let i = next_separator(s, from);
    if i >= s.len() {
        seq![s.subrange(from, s.len() as int)]
    } else {
        seq![s.subrange(from, i)] + parts_from(s, i + 2)
    }
}

#[via_fn]
proof fn parts_from_decreases(s: Seq<char>, from: int) {
    lemma_next_separator(s, from);
}

proof fn lemma_next_separator(s: Seq<char>, from: int)
    requires
        0 <= from <= s.len(),
    ensures
        from <= next_separator(s, from) <= s.len(),
        next_separator(s, from) < s.len() ==> separator_at(s, next_separator(s, from)),
    decreases s.len() - from,
{
    if from < s.len() && !separator_at(s, from) {
        lemma_next_separator(s, from + 1);
    }
}

/// The non-empty parts of `s` between the `::` that it holds.
pub open spec fn segments_of(s: Seq<char>) -> Seq<Seq<char>> {
    parts_from(s, 0).filter(nonempty())
}

pub open spec fn nonempty() -> spec_fn(Seq<char>) -> bool {
    |part: Seq<char>| part.len() > 0
}

/// The opening bracket of each segment's module.
pub open spec fn opened(segments: Seq<Seq<char>>) -> Seq<char>
    decreases segments.len(),
{
    if segments.len() == 0 {
        Seq::empty()
    } else {
        opened(segments.drop_last()) + (" module "@ + segments.last() + " {"@)
    }
}

pub open spec fn texts(parts: Seq<&'static str>) -> Seq<Seq<char>> {
    parts.map_values(|part: &'static str| part@)
}

proof fn lemma_segment_found(s: Seq<char>, from: int, i: int, done: Seq<Seq<char>>)
    requires
        0 <= from <= s.len(),
        i == next_separator(s, from),
        done + parts_from(s, from).filter(nonempty()) == segments_of(s),
    ensures
        from <= i <= s.len(),
        ({
            let part = s.subrange(from, i);
            let more = if part.len() > 0 { done.push(part) } else { done };
            if i >= s.len() {
                more == segments_of(s)
            } else {
                i + 2 <= s.len() && more + parts_from(s, i + 2).filter(nonempty()) == segments_of(s)
            }
        }),
{
    lemma_next_separator(s, from);
    let part = s.subrange(from, i);
    let more = if part.len() > 0 { done.push(part) } else { done };
    let one = seq![part];
    reveal_with_fuel(Seq::filter, 2);
    assert(one.drop_last() =~= Seq::<Seq<char>>::empty());
    assert(one.filter(nonempty()) =~= if part.len() > 0 { one } else { Seq::empty() });
    assert(more =~= done + one.filter(nonempty()));
    if i < s.len() {
        let rest = parts_from(s, i + 2);
        Seq::filter_distributes_over_add(one, rest, nonempty());
        assert(more + rest.filter(nonempty()) =~= done + (one + rest).filter(nonempty()));
    }
}

impl NsMode {
    /// The middle namespace, where the mode has one.
    pub open spec fn middle_view(self) -> Option<Seq<char>> {
        match self {
            NsMode::Raw => None,
            NsMode::WithMiddle(mid) => Some(mid@),
            NsMode::WithMiddleSuffix { middle, suffix } => Some(middle@),
        }
    }

    /// What stands behind every type name.
    pub open spec fn suffix_view(self) -> Seq<char> {
        match self {
            NsMode::WithMiddleSuffix { middle, suffix } => suffix@,
            _ => Seq::empty(),
        }
    }

    /// The modules between the package and the type.
    pub open spec fn segments(self) -> Seq<Seq<char>> {
        match self.middle_view() {
            None => Seq::empty(),
            Some(mid) => segments_of(mid),
        }
    }

    pub open spec fn declared_name(self, name: Seq<char>) -> Seq<char> {
        name + self.suffix_view()
    }

    pub open spec fn type_ref(self, package: Seq<char>, name: Seq<char>) -> Seq<char> {
        match self.middle_view() {
            None => package + "::"@ + self.declared_name(name),
            Some(mid) => package + "::"@ + mid + "::"@ + self.declared_name(name),
        }
    }

    pub open spec fn module_open(self, package: Seq<char>) -> Seq<char> {
        "module "@ + package + " {"@ + opened(self.segments()) + "\n"@
    }

    pub open spec fn module_close(self) -> Seq<char> {
        text::repeated("};"@, 1 + self.segments().len()) + "\n"@
    }

    /// The layout that ROS 2 uses for its own IDL files.
    pub fn ros2idl() -> (r: Self)
        ensures
            r.middle_view() == Some("msg"@),
            r.suffix_view() == Seq::<char>::empty(),
            r is WithMiddle,
    {
        NsMode::WithMiddle("msg")
    }

    /// The layout that ROS 2 uses on DDS.
    pub fn ros2dds() -> (r: Self)
        ensures
            r.middle_view() == Some("msg::dds_"@),
            r.suffix_view() == "_"@,
            r is WithMiddleSuffix,
    {
        NsMode::WithMiddleSuffix { middle: "msg::dds_", suffix: "_" }
    }

    /// The middle namespace as it was given.
    pub fn middle(&self) -> (r: Option<&'static str>)
        ensures
            r is Some <==> self.middle_view() is Some,
            r matches Some(mid) ==> self.middle_view() == Some(mid@),
    {
        match self {
            NsMode::Raw => None,
            NsMode::WithMiddle(mid) => Some(*mid),
            NsMode::WithMiddleSuffix { middle, .. } => Some(*middle),
        }
    }

    /// The modules between the package and the type; empty segments do not
    /// count.
    pub fn middle_segments(&self) -> (r: Vec<&'static str>)
        ensures
            texts(r@) == self.segments(),
    {
        let mut found: Vec<&'static str> = Vec::new();
        let mid = match self.middle() {
            None => {
                assert(texts(found@) =~= self.segments());
                return found;
            },
            Some(mid) => mid,
        };
        let len: usize = mid.unicode_len();
        let mut from: usize = 0;
        let mut pos: usize = 0;
        assert(texts(found@) + parts_from(mid@, 0).filter(nonempty()) =~= segments_of(mid@));
        while pos < len
            invariant
                from <= pos <= len,
                len == mid@.len(),
                next_separator(mid@, from as int) == next_separator(mid@, pos as int),
                texts(found@) + parts_from(mid@, from as int).filter(nonempty()) == segments_of(
                    mid@,
                ),
            decreases len - pos,
        {
            if pos + 1 < len && mid.get_char(pos) == ':' && mid.get_char(pos + 1) == ':' {
                proof {
                    lemma_segment_found(mid@, from as int, pos as int, texts(found@));
                }
                if from < pos {
                    let ghost before = texts(found@);
                    let part: &'static str = mid.substring_char(from, pos);
                    found.push(part);
                    assert(texts(found@) =~= before.push(part@));
                }
                from = pos + 2;
                pos = from;
            } else {
                pos = pos + 1;
            }
        }
        proof {
            lemma_segment_found(mid@, from as int, len as int, texts(found@));
        }
        if from < len {
            let ghost before = texts(found@);
            let part: &'static str = mid.substring_char(from, len);
            found.push(part);
            assert(texts(found@) =~= before.push(part@));
        }
        found
    }

    /// What stands behind every type name.
    pub fn type_suffix(&self) -> (r: &'static str)
        ensures
            r@ == self.suffix_view(),
    {
        proof {
            reveal_strlit("");
            assert(""@ =~= Seq::<char>::empty());
        }
        match self {
            NsMode::WithMiddleSuffix { suffix, .. } => *suffix,
            _ => "",
        }
    }

    /// The name under which a type is declared.
    pub fn idl_type_name(&self, name: &str) -> (r: String)
        ensures
            r@ == self.declared_name(name@),
    {
        let mut s = name.to_owned();
        s.append(self.type_suffix());
        s
    }

    /// The name by which a type is referred to from anywhere.
    pub fn idl_type_ref(&self, package: &str, name: &str) -> (r: String)
        ensures
            r@ == self.type_ref(package@, name@),
    {
        let mut s = package.to_owned();
        s.append("::");
        match self.middle() {
            None => {},
            Some(mid) => {
                s.append(mid);
                s.append("::");
            },
        }
        let declared = self.idl_type_name(name);
        s.append(declared.as_str());
        s
    }

    /// The line that opens the modules around a type of `package`.
    pub fn idl_module_open(&self, package: &str) -> (r: String)
        ensures
            r@ == self.module_open(package@),
    {
        let segments = self.middle_segments();
        let mut s = "module ".to_owned();
        s.append(package);
        s.append(" {");
        let ghost head = s@;
        let mut i: usize = 0;
        assert(s@ =~= head + opened(texts(segments@).take(0)));
        while i < segments.len()
            invariant
                i <= segments.len(),
                s@ == head + opened(texts(segments@).take(i as int)),
            decreases segments.len() - i,
        {
            s.append(" module ");
            s.append(segments[i]);
            s.append(" {");
            proof {
                let next = texts(segments@).take(i + 1);
                assert(next.drop_last() =~= texts(segments@).take(i as int));
                assert(s@ =~= head + opened(next));
            }
            i = i + 1;
        }
        assert(texts(segments@).take(i as int) =~= self.segments());
        s.append("\n");
        s
    }

    /// The line that closes what `idl_module_open` opened.
    pub fn idl_module_close(&self) -> (r: String)
        ensures
            r@ == self.module_close(),
    {
        let segments = self.middle_segments();
        let mut s = String::new();
        text::push_repeated(&mut s, "};", segments.len());
        s.append("};");
        assert(s@ =~= text::repeated("};"@, 1 + self.segments().len()));
        s.append("\n");
        s
    }
}

proof fn lemma_next_separator_is(s: Seq<char>, from: int, i: int)
    requires
        0 <= from <= i <= s.len(),
        forall|k: int| from <= k < i ==> !#[trigger] separator_at(s, k),
        i < s.len() ==> separator_at(s, i),
    ensures
        next_separator(s, from) == i,
    decreases i - from,
{
    if from < i {
        assert(!separator_at(s, from));
        lemma_next_separator_is(s, from + 1, i);
    }
}

proof fn lemma_next_separator_behind(front: Seq<char>, s: Seq<char>, from: int)
    requires
        0 <= from <= s.len(),
    ensures
        next_separator(front + s, front.len() + from) == front.len() + next_separator(s, from),
    decreases s.len() - from,
{
    if from < s.len() {
        assert(separator_at(front + s, front.len() + from) == separator_at(s, from));
        if !separator_at(s, from) {
            lemma_next_separator_behind(front, s, from + 1);
        }
    }
}

proof fn lemma_parts_behind(front: Seq<char>, s: Seq<char>, from: int)
    requires
        0 <= from <= s.len(),
    ensures
        parts_from(front + s, front.len() + from) == parts_from(s, from),
    decreases s.len() - from,
{
    let whole = front + s;
    let i = next_separator(s, from);
    lemma_next_separator(s, from);
    lemma_next_separator_behind(front, s, from);
    if i >= s.len() {
        assert(whole.subrange(front.len() + from, whole.len() as int) =~= s.subrange(
            from,
            s.len() as int,
        ));
    } else {
        lemma_parts_behind(front, s, i + 2);
        assert(whole.subrange(front.len() + from, front.len() + i) =~= s.subrange(from, i));
    }
}

/// A text in which no two colons follow each other is one segment, where it is
/// not empty; an empty text has none.
pub proof fn law_text_without_separator_is_one_segment(s: Seq<char>)
    requires
        forall|i: int| 0 <= i < s.len() - 1 ==> !(#[trigger] s[i] == ':' && s[i + 1] == ':'),
    ensures
        s.len() > 0 ==> segments_of(s) == seq![s],
        s.len() == 0 ==> segments_of(s).len() == 0,
{
    reveal_with_fuel(Seq::filter, 2);
    assert forall|k: int| 0 <= k < s.len() implies !#[trigger] separator_at(s, k) by {
        if k < s.len() - 1 {
            assert(!(s[k] == ':' && s[k + 1] == ':'));
        }
    }
    lemma_next_separator_is(s, 0, s.len() as int);
    assert(s.subrange(0, s.len() as int) =~= s);
    let one = seq![s];
    assert(parts_from(s, 0) == one);
    assert(one.drop_last() =~= Seq::<Seq<char>>::empty());
    if s.len() > 0 {
        assert(one.filter(nonempty()) =~= one);
    } else {
        assert(one.filter(nonempty()) =~= Seq::<Seq<char>>::empty());
    }
}

/// The segments of a text are what stands before its first two colons, and those
/// of what stands behind them.
pub proof fn law_segments_lie_between_separators(a: Seq<char>, b: Seq<char>)
    requires
        forall|i: int| 0 <= i < a.len() - 1 ==> !(#[trigger] a[i] == ':' && a[i + 1] == ':'),
        a.len() > 0 ==> a.last() != ':',
    ensures
        a.len() > 0 ==> segments_of(a + seq![':', ':'] + b) == seq![a] + segments_of(b),
        a.len() == 0 ==> segments_of(a + seq![':', ':'] + b) == segments_of(b),
{
    reveal_with_fuel(Seq::filter, 2);
    let front = a + seq![':', ':'];
    let whole = front + b;
    assert forall|k: int| 0 <= k < a.len() implies !#[trigger] separator_at(whole, k) by {
        assert(whole[k] == a[k]);
        if k < a.len() - 1 {
            assert(whole[k + 1] == a[k + 1]);
            assert(!(a[k] == ':' && a[k + 1] == ':'));
        }
    }
    assert(whole[a.len() as int] == ':' && whole[a.len() as int + 1] == ':');
    lemma_next_separator_is(whole, 0, a.len() as int);
    assert(whole.subrange(0, a.len() as int) =~= a);
    lemma_parts_behind(front, b, 0);
    let one = seq![a];
    assert(parts_from(whole, 0) == one + parts_from(b, 0));
    Seq::filter_distributes_over_add(one, parts_from(b, 0), nonempty());
    assert(one.drop_last() =~= Seq::<Seq<char>>::empty());
    if a.len() > 0 {
        assert(one.filter(nonempty()) =~= one);
    } else {
        assert(one.filter(nonempty()) =~= Seq::<Seq<char>>::empty());
        assert(Seq::<Seq<char>>::empty() + segments_of(b) =~= segments_of(b));
    }
}

/// A type is referred to by its package, what the layout puts between, and its
/// name with what the layout puts behind, parted by pairs of colons.
pub proof fn law_references_follow_the_layout(
    middle: &'static str,
    suffix: &'static str,
    package: Seq<char>,
    name: Seq<char>,
)
    ensures
        NsMode::Raw.type_ref(package, name) == package + seq![':', ':'] + name,
        NsMode::WithMiddle(middle).type_ref(package, name) == package + seq![':', ':'] + middle@
            + seq![':', ':'] + name,
        (NsMode::WithMiddleSuffix { middle, suffix }).type_ref(package, name) == package + seq![
            ':',
            ':',
        ] + middle@ + seq![':', ':'] + name + suffix@,
        NsMode::Raw.declared_name(name) == name,
        NsMode::WithMiddle(middle).declared_name(name) == name,
        (NsMode::WithMiddleSuffix { middle, suffix }).declared_name(name) == name + suffix@,
{
    reveal_strlit("::");
    assert("::"@ =~= seq![':', ':']);
    assert(name + Seq::empty() =~= name);
    let layout = NsMode::WithMiddleSuffix { middle, suffix };
    assert(layout.type_ref(package, name) =~= package + seq![':', ':'] + middle@ + seq![':', ':']
        + name + suffix@);
}

/// A package's module holds one module in another for each segment of what the
/// layout puts between, in their order, and each is closed.
pub proof fn law_modules_nest_along_the_segments(
    middle: &'static str,
    suffix: &'static str,
    package: Seq<char>,
    outer: Seq<Seq<char>>,
    part: Seq<char>,
    inner: Seq<Seq<char>>,
)
    ensures
        opened(Seq::empty()).len() == 0,
        opened(seq![part]) == " module "@ + part + " {"@,
        opened(outer + inner) == opened(outer) + opened(inner),
        NsMode::Raw.module_open(package) == "module "@ + package + " {\n"@,
        NsMode::WithMiddle(middle).module_open(package) == "module "@ + package + " {"@ + opened(
            segments_of(middle@),
        ) + "\n"@,
        (NsMode::WithMiddleSuffix { middle, suffix }).module_open(package) == "module "@ + package
            + " {"@ + opened(segments_of(middle@)) + "\n"@,
        NsMode::Raw.module_close() == "};\n"@,
        NsMode::WithMiddle(middle).module_close().len() == 3 + 2 * segments_of(middle@).len(),
        (NsMode::WithMiddleSuffix { middle, suffix }).module_close()
            == NsMode::WithMiddle(middle).module_close(),
    decreases inner.len(),
{
    let one = seq![part];
    assert(one.drop_last() =~= Seq::empty());
    assert(opened(one.drop_last()) =~= Seq::empty());
    assert(opened(one) =~= " module "@ + part + " {"@);
    if inner.len() == 0 {
        assert(outer + inner =~= outer);
        assert(opened(outer) + opened(inner) =~= opened(outer));
    } else {
        assert((outer + inner).drop_last() =~= outer + inner.drop_last());
        law_modules_nest_along_the_segments(middle, suffix, package, outer, part, inner.drop_last());
        assert(opened(outer + inner) =~= opened(outer) + opened(inner));
    }
    reveal_strlit(" {");
    reveal_strlit("\n");
    reveal_strlit(" {\n");
    reveal_strlit("};");
    reveal_strlit("};\n");
    assert(NsMode::Raw.module_open(package) =~= "module "@ + package + " {\n"@);
    text::law_copies_follow_each_other("};"@, 1, 0);
    assert(NsMode::Raw.module_close() =~= "};\n"@);
    lemma_copies_len("};"@, 1 + segments_of(middle@).len());
}

proof fn lemma_copies_len(unit: Seq<char>, count: nat)
    ensures
        text::repeated(unit, count).len() == unit.len() * count,
    decreases count,
{
    if count > 0 {
        lemma_copies_len(unit, (count - 1) as nat);
        assert(unit.len() * count == unit.len() * (count - 1) + unit.len()) by (nonlinear_arith)
            requires
                count > 0,
        ;
    } else {
        assert(unit.len() * 0 == 0);
    }
}

/// What each layout puts between package and type, and behind the type.
pub proof fn law_layouts_have_their_parts(middle: &'static str, suffix: &'static str)
    ensures
        NsMode::Raw.middle_view() is None,
        NsMode::WithMiddle(middle).middle_view() == Some(middle@),
        (NsMode::WithMiddleSuffix { middle, suffix }).middle_view() == Some(middle@),
        NsMode::Raw.suffix_view().len() == 0,
        NsMode::WithMiddle(middle).suffix_view().len() == 0,
        (NsMode::WithMiddleSuffix { middle, suffix }).suffix_view() == suffix@,
        NsMode::Raw.segments().len() == 0,
        NsMode::WithMiddle(middle).segments() == segments_of(middle@),
        (NsMode::WithMiddleSuffix { middle, suffix }).segments() == segments_of(middle@),
{
}

} // verus!
