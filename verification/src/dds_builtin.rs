//! What DDS says of the participants and endpoints that it knows.
use crate::dds_participant;
use crate::dds_participant::parse_guid;
use crate::dds_qos::{DdsQos, Policy};
use crate::dds_reader;
use crate::dds_reader::read_count;
use crate::error::DDSError;
use crate::text;
use crate::util::same_bytes;
use std::str::Utf8Error;
use vstd::prelude::*;

verus! {

/// The topics on which DDS reports.
#[derive(Debug, Clone, Copy, PartialEq, Eq, Structural)]
pub enum BuiltinTopic {
    Participant,
    Publication,
    Subscription,
}

/// A kind of report.
pub trait BuiltinContainer {
    /// What is reported.
    type Item;

    spec fn reported_on() -> BuiltinTopic;

    /// The topic on which it is reported.
    fn topic() -> (r: BuiltinTopic)
        ensures
            r == Self::reported_on(),
    ;
}

/// Reports on participants: only that one has come, not that one has gone.
#[derive(Debug, Clone, Copy, PartialEq, Eq, Structural)]
pub struct Participants;

impl BuiltinContainer for Participants {
    type Item = ParticipantData;

    open spec fn reported_on() -> BuiltinTopic {
        BuiltinTopic::Participant
    }

    fn topic() -> BuiltinTopic {
        BuiltinTopic::Participant
    }
}

/// Reports on writers. One that has gone has no policies.
#[derive(Debug, Clone, Copy, PartialEq, Eq, Structural)]
pub struct Publications;

impl BuiltinContainer for Publications {
    type Item = EndpointData;

    open spec fn reported_on() -> BuiltinTopic {
        BuiltinTopic::Publication
    }

    fn topic() -> BuiltinTopic {
        BuiltinTopic::Publication
    }
}

/// Reports on readers. One that has gone has no policies.
#[derive(Debug, Clone, Copy, PartialEq, Eq, Structural)]
pub struct Subscriptions;

impl BuiltinContainer for Subscriptions {
    type Item = EndpointData;

    open spec fn reported_on() -> BuiltinTopic {
        BuiltinTopic::Subscription
    }

    fn topic() -> BuiltinTopic {
        BuiltinTopic::Subscription
    }
}

/// A property of a participant, as the bytes that DDS gives.
#[derive(Debug)]
pub struct Property {
    pub name: Vec<u8>,
    pub value: Vec<u8>,
}

/// A property of a participant.
#[derive(Debug, Clone, Copy)]
pub struct QoSPropertyRef<'a> {
    pub name: &'a [u8],
    pub value: &'a [u8],
}

pub const PROCESS_NAME: &'static str = "__ProcessName";

pub const PID: &'static str = "__Pid";

pub const HOST_NAME: &'static str = "__Hostname";

pub const NETWORK_ADDRESS: &'static str = "__NetworkAddresses";

/// What is reported of a participant. One that has gone has no properties.
#[derive(Debug)]
pub struct ParticipantData {
    pub key: [u8; 16],
    pub properties: Option<Vec<Property>>,
}

/// What is reported of a writer or reader. One that has gone has no policies.
#[derive(Debug)]
pub struct EndpointData {
    pub key: [u8; 16],
    pub participant_key: [u8; 16],
    pub topic: Option<Vec<u8>>,
    pub typename: Option<Vec<u8>>,
    pub qos: Option<DdsQos>,
}

/// What nearly every participant says of itself.
#[derive(Debug)]
pub struct CddsParticipantProperty {
    pub id: uuid::Uuid,
    pub process_name: String,
    pub pid: u32,
    pub host_name: String,
    pub network_addresses: String,
}

/// One report.
#[derive(Debug)]
pub struct BuiltinSample<'a, T> {
    pub sample: &'a T,
}

/// Whether a property has a name.
pub open spec fn is_named(property: Property, name: Seq<char>) -> bool {
    property.name@ == vstd::utf8::encode_utf8(name)
}

/// Whether a property is one of those that a participant says of itself.
pub open spec fn is_known(property: Property) -> bool {
    ||| is_named(property, PROCESS_NAME@)
    ||| is_named(property, PID@)
    ||| is_named(property, HOST_NAME@)
    ||| is_named(property, NETWORK_ADDRESS@)
}

/// The value of a property as text; of several the last one counts.
pub open spec fn value_of(properties: Seq<Property>, name: Seq<char>) -> Option<Seq<char>>
    decreases properties.len(),
{
    if properties.len() == 0 {
        None
    } else if is_named(properties.last(), name) {
        Some(vstd::utf8::decode_utf8(properties.last().value@))
    } else {
        value_of(properties.drop_last(), name)
    }
}

/// Whether the property at a place has to be text and is not.
pub open spec fn is_invalid(properties: Seq<Property>, i: int) -> bool {
    is_known(properties[i]) && !vstd::utf8::valid_utf8(properties[i].value@)
}

/// The error of the first property that has to be text and is not.
pub open spec fn first_error(properties: Seq<Property>) -> Option<Utf8Error>
    decreases properties.len(),
{
    if properties.len() == 0 {
        None
    } else {
        match first_error(properties.drop_last()) {
            Some(error) => Some(error),
            None => if is_invalid(properties, properties.len() - 1) {
                Some(text::utf8_error(properties.last().value@))
            } else {
                None
            },
        }
    }
}

/// The number of a process; zero where the text is none.
pub open spec fn pid_of(value: Seq<char>) -> u32 {
    match text::parsed(value, u32::MAX as nat) {
        Some(pid) => pid as u32,
        None => 0,
    }
}

/// What a participant says of itself, where it says all of it.
pub open spec fn says(
    found: Option<CddsParticipantProperty>,
    id: uuid::Uuid,
    properties: Seq<Property>,
) -> bool {
    match (
        value_of(properties, PROCESS_NAME@),
        value_of(properties, PID@),
        value_of(properties, HOST_NAME@),
        value_of(properties, NETWORK_ADDRESS@),
    ) {
        (Some(process_name), Some(pid), Some(host_name), Some(addresses)) => {
            found matches Some(property) && {
                &&& property.id == id
                &&& property.process_name@ == process_name
                &&& property.pid == pid_of(pid)
                &&& property.host_name@ == host_name
                &&& property.network_addresses@ == addresses
            }
        },
        _ => found is None,
    }
}

fn parse_pid(value: &str) -> (r: u32)
    ensures
        r == pid_of(value@),
{
    match text::parse_u64(value) {
        Some(pid) => if pid <= u32::MAX as u64 {
            pid as u32
        } else {
            0
        },
        None => 0,
    }
}

proof fn lemma_names_differ(property: Property)
    ensures
        is_named(property, PROCESS_NAME@) ==> !is_named(property, PID@) && !is_named(
            property,
            HOST_NAME@,
        ) && !is_named(property, NETWORK_ADDRESS@),
        is_named(property, PID@) ==> !is_named(property, HOST_NAME@) && !is_named(
            property,
            NETWORK_ADDRESS@,
        ),
        is_named(property, HOST_NAME@) ==> !is_named(property, NETWORK_ADDRESS@),
{
    reveal_strlit("__ProcessName");
    reveal_strlit("__Pid");
    reveal_strlit("__Hostname");
    reveal_strlit("__NetworkAddresses");
    vstd::utf8::is_ascii_chars_encode_utf8(PROCESS_NAME@);
    vstd::utf8::is_ascii_chars_encode_utf8(PID@);
    vstd::utf8::is_ascii_chars_encode_utf8(HOST_NAME@);
    vstd::utf8::is_ascii_chars_encode_utf8(NETWORK_ADDRESS@);
}

fn name_is(property: &Property, name: &str) -> (r: bool)
    ensures
        r == is_named(*property, name@),
{
    same_bytes(property.name.as_slice(), name.as_bytes())
}

impl<'a> BuiltinSample<'a, ParticipantData> {
    /// What identifies the participant.
    pub fn guid(&self) -> (r: uuid::Uuid)
        ensures
            r == dds_participant::uuid_of(self.sample.key@),
    {
        parse_guid(self.sample.key)
    }

    /// Whether the participant is there.
    pub fn is_alive(&self) -> (r: bool)
        ensures
            r == (self.sample.properties is Some),
    {
        self.sample.properties.is_some()
    }

    /// The properties of a participant that is there.
    pub fn props(&self) -> (r: Option<Vec<QoSPropertyRef<'_>>>)
        ensures
            match (r, self.sample.properties) {
                (Some(found), Some(properties)) => {
                    &&& found@.len() == properties@.len()
                    &&& forall|i: int|
                        0 <= i < found@.len() ==> (#[trigger] found@[i]).name@
                            == properties@[i].name@ && found@[i].value@ == properties@[i].value@
                },
                (None, None) => true,
                _ => false,
            },
    {
        match &self.sample.properties {
            Some(properties) => {
                let mut found: Vec<QoSPropertyRef<'_>> = Vec::new();
                let mut i: usize = 0;
                while i < properties.len()
                    invariant
                        i <= properties.len(),
                        found@.len() == i,
                        forall|j: int|
                            0 <= j < i ==> (#[trigger] found@[j]).name@ == properties@[j].name@
                                && found@[j].value@ == properties@[j].value@,
                    decreases properties.len() - i,
                {
                    found.push(
                        QoSPropertyRef {
                            name: properties[i].name.as_slice(),
                            value: properties[i].value.as_slice(),
                        },
                    );
                    i = i + 1;
                }
                Some(found)
            },
            None => None,
        }
    }

    /// What the participant says of itself, where it is there and says all of
    /// it.
    pub fn property(&self) -> (r: Result<Option<CddsParticipantProperty>, Utf8Error>)
        ensures
            match self.sample.properties {
                None => r matches Ok(found) && found is None,
                Some(properties) => match first_error(properties@) {
                    Some(error) => r matches Err(e) && e == error,
                    None => r matches Ok(found) && says(
                        found,
                        dds_participant::uuid_of(self.sample.key@),
                        properties@,
                    ),
                },
            },
    {
        let properties = match &self.sample.properties {
            Some(properties) => properties,
            None => {
                return Ok(None);
            },
        };
        let mut process_name: Option<String> = None;
        let mut pid: Option<u32> = None;
        let mut host_name: Option<String> = None;
        let mut network_addresses: Option<String> = None;
        let mut i: usize = 0;
        assert(properties@.take(0) =~= Seq::empty());
        while i < properties.len()
            invariant
                i <= properties.len(),
                self.sample.properties == Some(*properties),
                first_error(properties@.take(i as int)) is None,
                text::text_of(process_name) == value_of(
                    properties@.take(i as int),
                    PROCESS_NAME@,
                ),
                match value_of(properties@.take(i as int), PID@) {
                    Some(value) => pid == Some(pid_of(value)),
                    None => pid is None,
                },
                text::text_of(host_name) == value_of(properties@.take(i as int), HOST_NAME@),
                text::text_of(network_addresses) == value_of(
                    properties@.take(i as int),
                    NETWORK_ADDRESS@,
                ),
            decreases properties.len() - i,
        {
            let property = &properties[i];
            let ghost next = properties@.take(i + 1);
            proof {
                assert(next.drop_last() =~= properties@.take(i as int));
                assert(next.last() == properties@[i as int]);
                lemma_names_differ(*property);
            }
            let is_process_name = name_is(property, PROCESS_NAME);
            let is_pid = name_is(property, PID);
            let is_host_name = name_is(property, HOST_NAME);
            let is_network_address = name_is(property, NETWORK_ADDRESS);
            if is_process_name || is_pid || is_host_name || is_network_address {
                match std::str::from_utf8(property.value.as_slice()) {
                    Err(error) => {
                        proof {
                            assert(first_error(next) == Some(error));
                            lemma_first_error_stays(properties@, i + 1);
                        }
                        return Err(error);
                    },
                    Ok(value) => {
                        if is_process_name {
                            process_name = Some(value.to_owned());
                        } else if is_pid {
                            pid = Some(parse_pid(value));
                        } else if is_host_name {
                            host_name = Some(value.to_owned());
                        } else {
                            network_addresses = Some(value.to_owned());
                        }
                    },
                }
            }
            i = i + 1;
        }
        assert(properties@.take(i as int) =~= properties@);
        let process_name = match process_name {
            Some(process_name) => process_name,
            None => {
                return Ok(None);
            },
        };
        let pid: u32 = match pid {
            Some(pid) => pid,
            None => {
                return Ok(None);
            },
        };
        let host_name = match host_name {
            Some(host_name) => host_name,
            None => {
                return Ok(None);
            },
        };
        let network_addresses = match network_addresses {
            Some(network_addresses) => network_addresses,
            None => {
                return Ok(None);
            },
        };
        Ok(
            Some(
                CddsParticipantProperty {
                    id: self.guid(),
                    process_name,
                    pid,
                    host_name,
                    network_addresses,
                },
            ),
        )
    }
}

proof fn lemma_first_error_stays(properties: Seq<Property>, n: int)
    requires
        0 <= n <= properties.len(),
        first_error(properties.take(n)) is Some,
    ensures
        first_error(properties) == first_error(properties.take(n)),
    decreases properties.len() - n,
{
    if n == properties.len() {
        assert(properties.take(n) =~= properties);
    } else {
        assert(properties.take(n + 1).drop_last() =~= properties.take(n));
        lemma_first_error_stays(properties, n + 1);
    }
}

fn optional_bytes<'a>(bytes: &'a Option<Vec<u8>>) -> (r: Option<&'a [u8]>)
    ensures
        match (r, *bytes) {
            (Some(found), Some(bytes)) => found@ == bytes@,
            (None, None) => true,
            _ => false,
        },
{
    match bytes {
        Some(bytes) => Some(bytes.as_slice()),
        None => None,
    }
}

impl<'a> BuiltinSample<'a, EndpointData> {
    /// What identifies the endpoint.
    pub fn guid(&self) -> (r: uuid::Uuid)
        ensures
            r == dds_participant::uuid_of(self.sample.key@),
    {
        parse_guid(self.sample.key)
    }

    /// What identifies the participant that the endpoint belongs to.
    pub fn participant_guid(&self) -> (r: uuid::Uuid)
        ensures
            r == dds_participant::uuid_of(self.sample.participant_key@),
    {
        parse_guid(self.sample.participant_key)
    }

    /// Whether the endpoint is there.
    pub fn is_alive(&self) -> (r: bool)
        ensures
            r == (self.sample.qos is Some),
    {
        self.sample.qos.is_some()
    }

    /// The name of the topic.
    pub fn name(&self) -> (r: Option<&[u8]>)
        ensures
            match (r, self.sample.topic) {
                (Some(found), Some(name)) => found@ == name@,
                (None, None) => true,
                _ => false,
            },
    {
        optional_bytes(&self.sample.topic)
    }

    /// The name of the topic's type.
    pub fn typename(&self) -> (r: Option<&[u8]>)
        ensures
            match (r, self.sample.typename) {
                (Some(found), Some(name)) => found@ == name@,
                (None, None) => true,
                _ => false,
            },
    {
        optional_bytes(&self.sample.typename)
    }

    /// The policy that the endpoint's policies amount to.
    pub fn policy(&self) -> (r: Option<Policy>)
        ensures
            r == match self.sample.qos {
                Some(qos) => Some(Policy::of_qos(qos@)),
                None => None,
            },
    {
        match &self.sample.qos {
            Some(qos) => Some(Policy::from_qos(qos)),
            None => None,
        }
    }

    /// The endpoint's policies.
    pub fn qos(&self) -> (r: Option<DdsQos>)
        ensures
            match (r, self.sample.qos) {
                (Some(found), Some(qos)) => found@ == qos@,
                (None, None) => true,
                _ => false,
            },
    {
        match &self.sample.qos {
            Some(qos) => Some(qos.clone()),
            None => None,
        }
    }
}

/// Room for reports, which are lent by the reader `R` that read them.
#[derive(Debug)]
pub struct BuiltinSamples<R> {
    pub len: u32,
    pub max: u32,
    pub loaned_from: Option<R>,
}

impl<R> BuiltinSamples<R> {
    /// What is left after everything was given back.
    pub open spec fn cleared(self) -> Self {
        if self.loaned_from is Some {
            BuiltinSamples { len: 0, loaned_from: None, ..self }
        } else {
            self
        }
    }

    /// What there is to give back: to whom, and how many.
    pub open spec fn loan(self) -> Option<(R, u32)> {
        match self.loaned_from {
            Some(reader) => if self.len > 0 {
                Some((reader, self.len))
            } else {
                None
            },
            None => None,
        }
    }

    /// What is held after a read.
    pub open spec fn after_read(self, ret: i32, reader: R) -> Self {
        if ret > 0 {
            BuiltinSamples { len: ret as u32, loaned_from: Some(reader), ..self }
        } else {
            self
        }
    }

    /// Room for `len` reports.
    pub fn new(len: usize) -> (r: Self)
        ensures
            r == (BuiltinSamples { len: 0, max: len as u32, loaned_from: None::<R> }),
    {
        BuiltinSamples { len: 0, max: #[verifier::truncate] (len as u32), loaned_from: None }
    }

    /// Gives back what was lent: to whom, and how many, where there is
    /// anything to give back.
    pub fn clear(&mut self) -> (r: Option<(R, u32)>)
        ensures
            r == old(self).loan(),
            *final(self) == old(self).cleared(),
    {
        let mut lender: Option<R> = None;
        std::mem::swap(&mut lender, &mut self.loaned_from);
        match lender {
            Some(reader) => {
                let len: u32 = self.len;
                self.len = 0;
                if len > 0 {
                    Some((reader, len))
                } else {
                    None
                }
            },
            None => None,
        }
    }
}

/// Reads reports. What was lent before is given back first, by `give_back`;
/// `read` is given how many reports there is room for and whether they are to be
/// taken away.
pub fn readn_from_entity_now<R, G, F>(
    samples: &mut BuiltinSamples<R>,
    reader: R,
    take: bool,
    give_back: G,
    read: F,
) -> (r: Result<usize, DDSError>) where G: FnOnce(R, u32), F: FnOnce(usize, bool) -> i32
    requires
        old(samples).max > 0 ==> (old(samples).loan() matches Some((lender, len))
            ==> call_requires(give_back, (lender, len))),
        old(samples).max > 0 ==> call_requires(read, (old(samples).max as usize, take)),
    ensures
        if old(samples).max == 0 {
            r == Err::<usize, DDSError>(DDSError::BadParameter) && *final(samples) == *old(samples)
        } else {
            &&& exists|ret: i32| #[trigger]
                call_ensures(read, (old(samples).max as usize, take), ret) && r
                    == dds_reader::count_or_error(ret) && *final(samples)
                    == old(samples).cleared().after_read(ret, reader)
            &&& old(samples).loan() matches Some((lender, len)) ==> call_ensures(
                give_back,
                (lender, len),
                (),
            )
        },
{
    if samples.max == 0 {
        return Err(DDSError::BadParameter);
    }
    match samples.clear() {
        Some((lender, len)) => {
            give_back(lender, len);
        },
        None => {},
    }
    let ret: i32 = read(samples.max as usize, take);
    if ret > 0 {
        samples.len = ret as u32;
        samples.loaned_from = Some(reader);
    }
    read_count(ret)
}

/// Reports that are lent are given back once: after that there is nothing to
/// give back.
pub proof fn law_loan_is_returned_once<R>(samples: BuiltinSamples<R>)
    ensures
        samples.cleared().loan() is None,
        samples.cleared().cleared() == samples.cleared(),
{
}

/// What a read lends is what the next clearing gives back.
pub proof fn law_what_is_lent_is_given_back<R>(samples: BuiltinSamples<R>, ret: i32, reader: R)
    requires
        ret > 0,
    ensures
        samples.after_read(ret, reader).loan() == Some((reader, ret as u32)),
{
}

/// The value of a property is that of the last one of its name; there is none
/// where no property has that name.
pub proof fn law_last_property_of_a_name_counts(properties: Seq<Property>, name: Seq<char>)
    ensures
        value_of(properties, name) is None <==> forall|i: int|
            0 <= i < properties.len() ==> (#[trigger] properties[i]).name@
                != vstd::utf8::encode_utf8(name),
        forall|i: int|
            0 <= i < properties.len() && (#[trigger] properties[i]).name@
                == vstd::utf8::encode_utf8(name) && (forall|j: int|
                i < j < properties.len() ==> (#[trigger] properties[j]).name@
                    != vstd::utf8::encode_utf8(name)) ==> value_of(properties, name) == Some(
                vstd::utf8::decode_utf8(properties[i].value@),
            ),
    decreases properties.len(),
{
    if properties.len() > 0 {
        let front = properties.drop_last();
        law_last_property_of_a_name_counts(front, name);
        let end = properties.len() - 1;
        assert(properties[end] == properties.last());
        assert(forall|i: int| 0 <= i < front.len() ==> front[i] == properties[i]);
        if is_named(properties.last(), name) {
            assert(properties[end].name@ == vstd::utf8::encode_utf8(name));
        } else {
            if value_of(front, name) is None {
                assert forall|i: int| 0 <= i < properties.len() implies (
                #[trigger] properties[i]).name@ != vstd::utf8::encode_utf8(name) by {
                    if i < front.len() {
                        assert(front[i].name@ != vstd::utf8::encode_utf8(name));
                    }
                }
            } else {
                let i = choose|i: int|
                    0 <= i < front.len() && (#[trigger] front[i]).name@ == vstd::utf8::encode_utf8(
                        name,
                    );
                assert(properties[i].name@ == vstd::utf8::encode_utf8(name));
            }
            assert forall|i: int|
                0 <= i < properties.len() && (#[trigger] properties[i]).name@
                    == vstd::utf8::encode_utf8(name) && (forall|j: int|
                    i < j < properties.len() ==> (#[trigger] properties[j]).name@
                        != vstd::utf8::encode_utf8(name)) implies value_of(properties, name)
                == Some(vstd::utf8::decode_utf8(properties[i].value@)) by {
                assert(i < front.len());
                assert(front[i].name@ == vstd::utf8::encode_utf8(name));
                assert forall|j: int| i < j < front.len() implies (#[trigger] front[j]).name@
                    != vstd::utf8::encode_utf8(name) by {
                    assert(properties[j].name@ != vstd::utf8::encode_utf8(name));
                }
            }
        }
    }
}

/// Which properties have to be text: the name of the process, its number, the
/// name of the host and the addresses, and no other.
pub proof fn law_which_properties_are_text(property: Property)
    ensures
        is_known(property) <==> property.name@ == vstd::utf8::encode_utf8("__ProcessName"@)
            || property.name@ == vstd::utf8::encode_utf8("__Pid"@) || property.name@
            == vstd::utf8::encode_utf8("__Hostname"@) || property.name@ == vstd::utf8::encode_utf8(
            "__NetworkAddresses"@,
        ),
{
}

/// An error comes just where a property that has to be text is not, and it is
/// that of the first one.
pub proof fn law_first_property_that_is_no_text_fails(properties: Seq<Property>)
    ensures
        first_error(properties) is None <==> forall|i: int|
            0 <= i < properties.len() && is_known(#[trigger] properties[i])
                ==> vstd::utf8::valid_utf8(properties[i].value@),
        forall|i: int|
            0 <= i < properties.len() && is_known(#[trigger] properties[i])
                && !vstd::utf8::valid_utf8(properties[i].value@) && (forall|j: int|
                0 <= j < i && is_known(#[trigger] properties[j]) ==> vstd::utf8::valid_utf8(
                    properties[j].value@,
                )) ==> first_error(properties) == Some(text::utf8_error(properties[i].value@)),
    decreases properties.len(),
{
    if properties.len() > 0 {
        let front = properties.drop_last();
        law_first_property_that_is_no_text_fails(front);
        let end = properties.len() - 1;
        assert(properties[end] == properties.last());
        assert(forall|i: int| 0 <= i < front.len() ==> front[i] == properties[i]);
        if first_error(front) is None {
            assert forall|i: int| 0 <= i < front.len() && is_known(#[trigger] properties[i]) implies vstd::utf8::valid_utf8(
                properties[i].value@,
            ) by {
                assert(is_known(front[i]));
            }
        } else {
            let i = choose|i: int|
                0 <= i < front.len() && is_known(#[trigger] front[i]) && !vstd::utf8::valid_utf8(
                    front[i].value@,
                );
            assert(is_known(properties[i]));
        }
        assert forall|i: int|
            0 <= i < properties.len() && is_known(#[trigger] properties[i])
                && !vstd::utf8::valid_utf8(properties[i].value@) && (forall|j: int|
                0 <= j < i && is_known(#[trigger] properties[j]) ==> vstd::utf8::valid_utf8(
                    properties[j].value@,
                )) implies first_error(properties) == Some(
            text::utf8_error(properties[i].value@),
        ) by {
            if i < front.len() {
                assert(is_known(front[i]));
                assert forall|j: int| 0 <= j < i && is_known(#[trigger] front[j]) implies vstd::utf8::valid_utf8(
                    front[j].value@,
                ) by {
                    assert(is_known(properties[j]));
                }
            } else {
                assert(first_error(front) is None) by {
                    assert forall|j: int| 0 <= j < front.len() && is_known(#[trigger] front[j]) implies vstd::utf8::valid_utf8(
                        front[j].value@,
                    ) by {
                        assert(is_known(properties[j]));
                    }
                }
            }
        }
    }
}

/// The number of a process is read where it is written in decimal and 32 bits can
/// hold it; where the text has any other sign than digits and one plus sign
/// before them, it is zero.
pub proof fn law_process_number_is_read(n: nat, value: Seq<char>, i: int)
    ensures
        n <= u32::MAX ==> pid_of(text::decimal(n)) == n,
        n > u32::MAX ==> pid_of(text::decimal(n)) == 0,
        0 < i < value.len() && !('0' <= value[i] <= '9') ==> pid_of(value) == 0,
        value.len() == 0 ==> pid_of(value) == 0,
{
    text::lemma_decimal_is_digits(n);
    let s = text::decimal(n);
    assert(text::is_digit(s[0]));
    assert(text::digits_of(s) == s);
    if 0 < i < value.len() && !('0' <= value[i] <= '9') {
        let digits = text::digits_of(value);
        if value[0] == '+' {
            assert(digits[i - 1] == value[i]);
            assert(!text::is_digit(digits[i - 1]));
        } else {
            assert(digits[i] == value[i]);
            assert(!text::is_digit(digits[i]));
        }
    }
}

/// A participant says of itself what its properties say: each of the four under
/// its own name. Where one is missing, it says nothing.
pub proof fn law_participant_says_what_its_properties_say(
    found: Option<CddsParticipantProperty>,
    id: uuid::Uuid,
    properties: Seq<Property>,
)
    requires
        says(found, id, properties),
    ensures
        found is Some <==> value_of(properties, "__ProcessName"@) is Some && value_of(
            properties,
            "__Pid"@,
        ) is Some && value_of(properties, "__Hostname"@) is Some && value_of(
            properties,
            "__NetworkAddresses"@,
        ) is Some,
        found matches Some(property) ==> {
            &&& property.id == id
            &&& value_of(properties, "__ProcessName"@) == Some(property.process_name@)
            &&& value_of(properties, "__Pid"@) matches Some(pid) && property.pid == pid_of(pid)
            &&& value_of(properties, "__Hostname"@) == Some(property.host_name@)
            &&& value_of(properties, "__NetworkAddresses"@) == Some(property.network_addresses@)
        },
{
}

/// A read that gives reports lends just those, and leaves the room as it was;
/// any other read changes nothing. Giving back empties what was lent and leaves
/// the room as it was.
pub proof fn law_room_for_reports_stays<R>(samples: BuiltinSamples<R>, ret: i32, reader: R)
    ensures
        ret > 0 ==> samples.after_read(ret, reader).len == ret && samples.after_read(
            ret,
            reader,
        ).loaned_from == Some(reader),
        ret <= 0 ==> samples.after_read(ret, reader) == samples,
        samples.after_read(ret, reader).max == samples.max,
        samples.cleared().max == samples.max,
        samples.loaned_from is Some ==> samples.cleared().len == 0
            && samples.cleared().loaned_from is None,
        samples.loaned_from is None ==> samples.cleared() == samples,
        samples.loan() matches Some((lender, count)) ==> samples.loaned_from == Some(lender) && count
            == samples.len && count > 0,
        samples.loaned_from is Some && samples.len > 0 ==> samples.loan() is Some,
{
}

/// Each kind of report has its topic.
pub proof fn law_reports_have_their_topics()
    ensures
        Participants::reported_on() is Participant,
        Publications::reported_on() is Publication,
        Subscriptions::reported_on() is Subscription,
{
}

} // verus!
