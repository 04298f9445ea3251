//! Patching the hosts file of one container: the request, the file that is
//! read out of the archive the container hands over, and the command that
//! writes the new file back.

use std::io::Read;
use vstd::prelude::*;
use vstd::string::*;
use crate::container::{Container, ContainerView};
use crate::error::{DockerError, DockerErrorView, PatchError, PatchErrorView};
use crate::hosts::{rewritten, texts, update_host_file};
use crate::text::{unescape, unescaped};

verus! {

/// A request to point the hosts file of one container at the target.
#[derive(Debug)]
pub struct HostsPatch {
    /// The container whose hosts file is to be rewritten.
    pub container: Container,
    /// Host names that are to resolve to the target.
    pub dependencies: Vec<String>,
    /// Name of the monitored network.
    pub network: String,
    /// Compose service name of the target.
    pub target: String,
    /// Address of the target.
    pub host: String,
}

/// Mathematical model of a [`HostsPatch`].
pub struct PatchView {
    pub container: ContainerView,
    pub dependencies: Seq<Seq<char>>,
    pub network: Seq<char>,
    pub target: Seq<char>,
    pub host: Seq<char>,
}

impl View for HostsPatch {
    type V = PatchView;

    open spec fn view(&self) -> PatchView {
        PatchView {
            container: self.container@,
            dependencies: texts(self.dependencies@),
            network: self.network@,
            target: self.target@,
            host: self.host@,
        }
    }
}

/// The views of a list of requests.
pub open spec fn patch_views(patches: Seq<HostsPatch>) -> Seq<PatchView> {
    patches.map_values(|patch: HostsPatch| patch@)
}

/// What came of reading the first entry of a tar archive.
#[derive(Debug)]
pub enum FirstEntry {
    /// The entries of the archive could not be listed; the message says why.
    Unlisted(String),
    /// The archive holds no entry.
    Missing,
    /// The first entry could not be had; the message says why.
    Damaged(String),
    /// The content of the first entry could not be read as text; the message
    /// says why.
    Unread(String),
    /// The content of the first entry.
    Text(String),
}

/// Mathematical model of a [`FirstEntry`].
pub enum FirstEntryView {
    /// The entries could not be listed.
    Unlisted(Seq<char>),
    /// No entry.
    Missing,
    /// The first entry could not be had.
    Damaged(Seq<char>),
    /// The content could not be read as text.
    Unread(Seq<char>),
    /// The content.
    Text(Seq<char>),
}

impl View for FirstEntry {
    type V = FirstEntryView;

    open spec fn view(&self) -> FirstEntryView {
        match self {
            FirstEntry::Unlisted(message) => FirstEntryView::Unlisted(message@),
            FirstEntry::Missing => FirstEntryView::Missing,
            FirstEntry::Damaged(message) => FirstEntryView::Damaged(message@),
            FirstEntry::Unread(message) => FirstEntryView::Unread(message@),
            FirstEntry::Text(text) => FirstEntryView::Text(text@),
        }
    }
}

/// What reading the first entry of a tar archive gives, as the tar reader
/// determines it from the bytes of the archive.
pub uninterp spec fn first_entry(archive: Seq<u8>) -> FirstEntryView;

/// Reads the first entry of a tar archive that is held in memory:
/// `tar::Archive::new` on the bytes, `Archive::entries`, the first item that
/// the iterator yields, and `read_to_string` on that entry. Each way in which
/// one of these calls can end has an outcome of its own.
///
/// Nothing is proved of this function. Its contract claims only that the
/// outcome is determined by the bytes of the archive, and gives it a name.
#[verifier::external_body]
fn read_first_entry(archive: &[u8]) -> (read: FirstEntry)
    ensures
        read@ == first_entry(archive@),
{
    let mut reader = tar::Archive::new(archive);
    let mut text = String::new();
    let mut entries = match reader.entries() {
        Ok(entries) => entries,
        Err(error) => return FirstEntry::Unlisted(error.to_string()),
    };
    match entries.next() {
        None => FirstEntry::Missing,
        Some(Err(error)) => FirstEntry::Damaged(error.to_string()),
        Some(Ok(mut entry)) => match entry.read_to_string(&mut text) {
            Ok(_) => FirstEntry::Text(text),
            Err(error) => FirstEntry::Unread(error.to_string()),
        },
    }
}

/// The view of the outcome of a rewrite.
pub open spec fn outcome_view(outcome: Result<String, PatchError>) -> Result<
    Seq<char>,
    PatchErrorView,
> {
    match outcome {
        Ok(text) => Ok(text@),
        Err(error) => Err(error@),
    }
}

/// The hosts file that `patch` asks for, from what was read of the first
/// entry of the archive: the text, with what it holds written out turned into
/// tabs and line feeds, and its block replaced. An archive whose entries
/// cannot be listed, or that holds none, means that the container has no
/// hosts file. An entry that cannot be had or read is an error of the
/// transport, with the message of the reader.
pub open spec fn patched(patch: PatchView, read: FirstEntryView) -> Result<
    Seq<char>,
    PatchErrorView,
> {
    match read {
        FirstEntryView::Text(text) => Ok(
            rewritten(unescaped(text), patch.dependencies, patch.network, patch.target, patch.host),
        ),
        FirstEntryView::Unlisted(_) => Err(
            PatchErrorView::Docker(DockerErrorView::NoHost(patch.container.id)),
        ),
        FirstEntryView::Missing => Err(
            PatchErrorView::Docker(DockerErrorView::NoHost(patch.container.id)),
        ),
        FirstEntryView::Damaged(message) => Err(PatchErrorView::Transport(message)),
        FirstEntryView::Unread(message) => Err(PatchErrorView::Transport(message)),
    }
}

/// The arguments of the command that overwrites the hosts file of the
/// container `id` with `content`, as root, from inside the container.
pub open spec fn overwrite_arguments(id: Seq<char>, content: Seq<char>) -> Seq<Seq<char>> {
    seq![
        "exec"@,
        "-u"@,
        "root"@,
        id,
        "sh"@,
        "-c"@,
        "echo \""@ + content + "\" > /etc/hosts"@,
    ]
}

impl HostsPatch {
    /// The name by which the hosts file of the container is fetched. A
    /// container without a name cannot be fetched from.
    pub fn source_name(&self) -> (name: Result<String, DockerError>)
        ensures
            match name {
                Ok(text) => self@.container.name == Some(text@),
                Err(error) => self@.container.name is None && error@ == DockerErrorView::NoName(
                    self@.container.id,
                ),
            },
    {
        match self.container.name() {
            Some(name) => Ok(name),
            None => Err(DockerError::NoName(self.container.id())),
        }
    }

    /// The new hosts file, from what was read of the first entry of the
    /// archive that the container handed over.
    pub fn rewrite_entry(&self, read: FirstEntry) -> (outcome: Result<String, PatchError>)
        ensures
            outcome_view(outcome) == patched(self@, read@),
    {
        match read {
            FirstEntry::Text(text) => {
                let plain = unescape(text.as_str());
                Ok(
                    update_host_file(
                        plain,
                        self.dependencies.as_slice(),
                        self.network.as_str(),
                        self.target.as_str(),
                        self.host.as_str(),
                    ),
                )
            },
            FirstEntry::Unlisted(_) => Err(
                PatchError::Docker(DockerError::NoHost(self.container.id())),
            ),
            FirstEntry::Missing => Err(PatchError::Docker(DockerError::NoHost(self.container.id()))),
            FirstEntry::Damaged(message) => Err(PatchError::Transport(message)),
            FirstEntry::Unread(message) => Err(PatchError::Transport(message)),
        }
    }

    /// The new hosts file, from the tar archive that the container handed
    /// over: its first entry is the hosts file as it is now.
    pub fn rewrite_archive(&self, archive: &[u8]) -> (outcome: Result<String, PatchError>)
        ensures
            outcome_view(outcome) == patched(self@, first_entry(archive@)),
    {
        self.rewrite_entry(read_first_entry(archive))
    }

    /// The arguments of the command that writes `content` back as the hosts
    /// file of the container.
    pub fn overwrite_command(&self, content: &str) -> (arguments: Vec<String>)
        ensures
            texts(arguments@) == overwrite_arguments(self@.container.id, content@),
    {
        let mut script = String::from_str("echo \"");
        script.append(content);
        script.append("\" > /etc/hosts");
        let mut arguments: Vec<String> = Vec::new();
        arguments.push(String::from_str("exec"));
        arguments.push(String::from_str("-u"));
        arguments.push(String::from_str("root"));
        arguments.push(self.container.id());
        arguments.push(String::from_str("sh"));
        arguments.push(String::from_str("-c"));
        arguments.push(script);
        assert(texts(arguments@) =~= overwrite_arguments(self@.container.id, content@));
        arguments
    }
}

} // verus!
