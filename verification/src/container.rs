//! What the runtime reports of a container, and what is retained of it.

use vstd::prelude::*;
use vstd::string::*;
use vstd::utf8::{
    decode_utf8, encode_utf8, encode_utf8_decode_utf8, encode_utf8_valid_utf8, is_char_boundary,
};
use crate::dictionary::TextMap;
use crate::hosts::texts;

verus! {

/// Label under which a compose stack records the service of a container.
pub const COMPOSE_SERVICE_LABEL: &'static str = "com.docker.compose.service";

/// Number of bytes of an identity that a short identity keeps at most.
pub const SHORT_ID_LENGTH: usize = 16;

/// The view of an optional string.
pub open spec fn text_of(value: Option<String>) -> Option<Seq<char>> {
    match value {
        Some(text) => Some(text@),
        None => None,
    }
}

/// The value under `key`, if `map` has one.
pub open spec fn lookup(map: Map<Seq<char>, Seq<char>>, key: Seq<char>) -> Option<Seq<char>> {
    if map.contains_key(key) {
        Some(map[key])
    } else {
        None
    }
}

/// The display name of a container, from the names the runtime lists for it:
/// the first of them without the slash it starts with. There is none when no
/// name is listed or the first one does not start with a slash.
pub open spec fn display_name_of(names: Seq<Seq<char>>) -> Option<Seq<char>> {
    if names.len() > 0 && names[0].len() > 0 && names[0][0] == '/' {
        Some(names[0].skip(1))
    } else {
        None
    }
}

/// The display name of a container, from the names the runtime lists for it.
pub fn display_name(names: &Vec<String>) -> (name: Option<String>)
    ensures
        text_of(name) == display_name_of(texts(names@)),
{
    if names.len() == 0 {
        return None;
    }
    let first = names[0].as_str();
    let length = first.unicode_len();
    if length > 0 && first.get_char(0) == '/' {
        let name = first.substring_char(1, length).to_owned();
        assert(name@ =~= first@.skip(1));
        Some(name)
    } else {
        None
    }
}

/// A copy of an optional string.
pub fn copy_text(value: &Option<String>) -> (copy: Option<String>)
    ensures
        copy == *value,
{
    match value {
        Some(text) => Some(text.clone()),
        None => None,
    }
}

/// What the process is set up with, for as long as it runs.
#[derive(Debug)]
pub struct Config {
    /// Name of the monitored network.
    pub network: String,
    /// Label key that marks a container as a dependent.
    pub label_key: String,
    /// Compose service name of the target.
    pub target: String,
    /// Host names that dependents resolve to the target.
    pub dependencies: Vec<String>,
}

/// Mathematical model of the configuration.
pub struct ConfigView {
    /// Name of the monitored network.
    pub network: Seq<char>,
    /// Label key that marks a container as a dependent.
    pub label_key: Seq<char>,
    /// Compose service name of the target.
    pub target: Seq<char>,
    /// Host names that dependents resolve to the target.
    pub dependencies: Seq<Seq<char>>,
}

impl View for Config {
    type V = ConfigView;

    open spec fn view(&self) -> ConfigView {
        ConfigView {
            network: self.network@,
            label_key: self.label_key@,
            target: self.target@,
            dependencies: texts(self.dependencies@),
        }
    }
}

/// The line that says what the process looks for.
pub open spec fn banner(config: ConfigView) -> Seq<char> {
    "Looking for containers in network "@ + config.network + " with label "@ + config.label_key
        + " to be routed via service «"@ + config.target + "»"@
}

impl Config {
    /// The line that says what the process looks for: the monitored network,
    /// the label of the dependents and the service of the target.
    pub fn banner(&self) -> (line: String)
        ensures
            line@ == banner(self@),
    {
        let mut line = String::from_str("Looking for containers in network ");
        line.append(self.network.as_str());
        line.append(" with label ");
        line.append(self.label_key.as_str());
        line.append(" to be routed via service «");
        line.append(self.target.as_str());
        line.append("»");
        line
    }
}

/// A container as one poll of the runtime reports it.
#[derive(Debug)]
pub struct RawContainer {
    /// Identity, stable for as long as the container exists.
    pub id: String,
    /// Display name, if the container has one.
    pub name: Option<String>,
    /// Address by name of each network the container is attached to.
    pub networks: TextMap,
    /// Labels of the container.
    pub labels: TextMap,
}

/// Mathematical model of a [`RawContainer`].
pub struct RawView {
    pub id: Seq<char>,
    pub name: Option<Seq<char>>,
    pub networks: Map<Seq<char>, Seq<char>>,
    pub labels: Map<Seq<char>, Seq<char>>,
}

impl View for RawContainer {
    type V = RawView;

    open spec fn view(&self) -> RawView {
        RawView {
            id: self.id@,
            name: text_of(self.name),
            networks: self.networks@,
            labels: self.labels@,
        }
    }
}

impl Clone for RawContainer {
    fn clone(&self) -> (copy: RawContainer)
        ensures
            copy@ == self@,
    {
        RawContainer {
            id: self.id.clone(),
            name: copy_text(&self.name),
            networks: self.networks.clone(),
            labels: self.labels.clone(),
        }
    }
}

/// A container as it is retained from the poll in which it was first seen.
#[derive(Debug)]
pub struct Container {
    id: String,
    name: Option<String>,
    service: Option<String>,
    ip: Option<String>,
    flag: Option<String>,
}

/// Mathematical model of a [`Container`].
pub struct ContainerView {
    /// Identity.
    pub id: Seq<char>,
    /// Display name.
    pub name: Option<Seq<char>>,
    /// Compose service.
    pub service: Option<Seq<char>>,
    /// Address on the monitored network.
    pub ip: Option<Seq<char>>,
    /// Value of the label that marks a dependent.
    pub flag: Option<Seq<char>>,
}

/// What is retained of `raw` when `network` is monitored and `label_key` marks
/// the dependents.
pub open spec fn derived(raw: RawView, network: Seq<char>, label_key: Seq<char>) -> ContainerView {
    ContainerView {
        id: raw.id,
        name: raw.name,
        service: lookup(raw.labels, COMPOSE_SERVICE_LABEL@),
        ip: lookup(raw.networks, network),
        flag: lookup(raw.labels, label_key),
    }
}

/// The last position not after `at` where `bytes`, the UTF-8 form of a text,
/// can be cut without parting a character.
pub open spec fn cut_before(bytes: Seq<u8>, at: int) -> int
    decreases at,
{
    if at <= 0 {
        0
    } else if is_char_boundary(bytes, at) {
        at
    } else {
        cut_before(bytes, at - 1)
    }
}

/// The short form of an identity, over its UTF-8 form: all of it when it has
/// fewer than `SHORT_ID_LENGTH` bytes, else its first `SHORT_ID_LENGTH` bytes
/// when a character starts or the identity ends there, else as many fewer as
/// it takes not to part a character.
pub open spec fn short_bytes(bytes: Seq<u8>) -> Seq<u8> {
    if bytes.len() < SHORT_ID_LENGTH {
        bytes
    } else {
        bytes.subrange(0, cut_before(bytes, SHORT_ID_LENGTH as int))
    }
}

/// The short form of an identity: the text whose UTF-8 form is the short
/// form of the UTF-8 form of `id`.
pub open spec fn short_id(id: Seq<char>) -> Seq<char> {
    decode_utf8(short_bytes(encode_utf8(id)))
}

/// One line of text that tells what is known of a container.
pub open spec fn described(container: ContainerView) -> Seq<char> {
    "container "@ + short_id(container.id) + (if container.flag is Some {
        " flagged"@
    } else {
        " unflagged"@
    }) + (match container.service {
        Some(service) => " service "@ + service,
        None => Seq::empty(),
    }) + (match container.name {
        Some(name) => " named "@ + name,
        None => " unnamed"@,
    }) + (match container.ip {
        Some(ip) => " in network at ip "@ + ip,
        None => " orphan"@,
    })
}

impl View for Container {
    type V = ContainerView;

    closed spec fn view(&self) -> ContainerView {
        ContainerView {
            id: self.id@,
            name: text_of(self.name),
            service: text_of(self.service),
            ip: text_of(self.ip),
            flag: text_of(self.flag),
        }
    }
}

impl Clone for Container {
    fn clone(&self) -> (copy: Container)
        ensures
            copy@ == self@,
    {
        Container {
            id: self.id.clone(),
            name: copy_text(&self.name),
            service: copy_text(&self.service),
            ip: copy_text(&self.ip),
            flag: copy_text(&self.flag),
        }
    }
}

fn found_text(value: Option<&String>) -> (copy: Option<String>)
    ensures
        match value {
            Some(text) => copy == Some(*text),
            None => copy.is_none(),
        },
{
    match value {
        Some(text) => Some(text.clone()),
        None => None,
    }
}

impl Container {
    /// What is retained of `raw` at its first sighting: its identity and name,
    /// its compose service, its address on the monitored network and the value
    /// of the label that marks a dependent.
    pub fn derive(raw: &RawContainer, network: &str, label_key: &str) -> (container: Container)
        ensures
            container@ == derived(raw@, network@, label_key@),
    {
        Container {
            id: raw.id.clone(),
            name: copy_text(&raw.name),
            service: found_text(raw.labels.get(COMPOSE_SERVICE_LABEL)),
            ip: found_text(raw.networks.get(network)),
            flag: found_text(raw.labels.get(label_key)),
        }
    }

    /// Identity of the container.
    pub fn id(&self) -> (id: String)
        ensures
            id@ == self@.id,
    {
        self.id.clone()
    }

    /// Display name of the container, if it has one.
    pub fn name(&self) -> (name: Option<String>)
        ensures
            text_of(name) == self@.name,
    {
        copy_text(&self.name)
    }

    /// Compose service of the container, if it belongs to one.
    pub fn service(&self) -> (service: Option<String>)
        ensures
            text_of(service) == self@.service,
    {
        copy_text(&self.service)
    }

    /// Address of the container on the monitored network, if it is attached.
    pub fn ip(&self) -> (ip: Option<String>)
        ensures
            text_of(ip) == self@.ip,
    {
        copy_text(&self.ip)
    }

    /// Value of the label that marks a dependent, if the container carries it.
    pub fn flag(&self) -> (flag: Option<String>)
        ensures
            text_of(flag) == self@.flag,
    {
        copy_text(&self.flag)
    }

    /// Whether the container qualifies for a patch: it carries the label and
    /// has an address on the monitored network.
    pub fn is_participant(&self) -> (active: bool)
        ensures
            active == (self@.flag is Some && self@.ip is Some),
    {
        self.flag.is_some() && self.ip.is_some()
    }

    /// Short form of the identity: its first `SHORT_ID_LENGTH` bytes. An
    /// identity that has fewer is given whole; one in which a character
    /// straddles that length is cut before the character.
    pub fn hash(&self) -> (short: &str)
        ensures
            short.spec_bytes() == short_bytes(encode_utf8(self@.id)),
            short@ == short_id(self@.id),
            encode_utf8(self@.id).len() < SHORT_ID_LENGTH ==> short@ == self@.id,
            encode_utf8(self@.id).len() >= SHORT_ID_LENGTH && is_char_boundary(
                encode_utf8(self@.id),
                SHORT_ID_LENGTH as int,
            ) ==> short.spec_bytes() == encode_utf8(self@.id).subrange(0, SHORT_ID_LENGTH as int),
    {
        let id = self.id.as_str();
        proof {
            encode_utf8_valid_utf8(id@);
            encode_utf8_decode_utf8(id@);
        }
        if id.as_bytes().len() < SHORT_ID_LENGTH {
            return id;
        }
        let mut cut: usize = SHORT_ID_LENGTH;
        while cut > 0 && !id.is_char_boundary(cut)
            invariant
                cut <= SHORT_ID_LENGTH,
                cut_before(id.spec_bytes(), cut as int) == cut_before(
                    id.spec_bytes(),
                    SHORT_ID_LENGTH as int,
                ),
            decreases cut,
        {
            cut -= 1;
        }
        let (short, _) = id.split_at(cut);
        proof {
            encode_utf8_decode_utf8(short@);
        }
        short
    }

    /// One line of text that tells what is known of the container.
    pub fn to_string(&self) -> (line: String)
        ensures
            line@ == described(self@),
    {
        let mut line = String::from_str("container ");
        line.append(self.hash());
        if self.flag.is_some() {
            line.append(" flagged");
        } else {
            line.append(" unflagged");
        }
        match &self.service {
            Some(service) => {
                line.append(" service ");
                line.append(service.as_str());
            },
            None => {},
        }
        match &self.name {
            Some(name) => {
                line.append(" named ");
                line.append(name.as_str());
            },
            None => {
                line.append(" unnamed");
            },
        }
        match &self.ip {
            Some(ip) => {
                line.append(" in network at ip ");
                line.append(ip.as_str());
            },
            None => {
                line.append(" orphan");
            },
        }
        line
    }
}

} // verus!
