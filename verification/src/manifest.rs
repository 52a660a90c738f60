//! The manifest: the repositories of a run, where each comes from and where
//! it goes.

use vstd::prelude::*;
use vstd::string::{StringExecFns, StringSliceAdditionalSpecFns};
use crate::xml::{
    attribute_text, document_events, element_of, next_event, open_document, same_bytes,
    string_attr, upcoming, ElementModel, EventModel, XmlElement, XmlEvent,
};

verus! {

/// One repository of a manifest.
#[derive(Debug, PartialEq)]
pub struct Source {
    /// The revision to check out.
    pub revision: String,
    /// Where the repository is fetched from.
    pub origin: String,
    /// Where, below the destination of the run, the repository is placed.
    pub destination: String,
}

impl Clone for Source {
    /// A copy of this repository.
    fn clone(&self) -> (copy: Source)
        ensures
            copy == *self,
    {
        Source {
            revision: self.revision.clone(),
            origin: self.origin.clone(),
            destination: self.destination.clone(),
        }
    }
}

/// A named place that repositories are fetched from.
#[derive(Debug, PartialEq)]
pub struct Remote {
    /// The name by which projects refer to the remote.
    pub name: String,
    /// The address below which the remote keeps its repositories.
    pub fetch: String,
}

/// A parsed manifest.
#[derive(Debug, PartialEq)]
pub struct Manifest {
    /// The name of the remote of the projects that name none.
    pub default_remote: Option<String>,
    /// The remotes that the manifest declares, each name once.
    pub remotes: Vec<Remote>,
    /// The repositories of the manifest, in the order in which it lists them.
    pub sources: Vec<Source>,
}

/// Why a manifest could not be read.
#[derive(Debug, PartialEq)]
pub enum ManifestError {
    /// The document is not well formed; the report of the reader.
    Xml(String),
    /// A project has no name, or names no remote that the manifest declares
    /// before it.
    UnresolvedRemote,
}

/// The mathematical value of a `Source`.
pub struct SourceModel {
    pub revision: Seq<char>,
    pub origin: Seq<char>,
    pub destination: Seq<char>,
}

/// The mathematical value of a `Manifest`; a remote is its name and its
/// address.
pub struct ManifestModel {
    pub default_remote: Option<Seq<char>>,
    pub remotes: Seq<(Seq<char>, Seq<char>)>,
    pub sources: Seq<SourceModel>,
}

/// The mathematical value of a `ManifestError`.
pub enum ManifestFault {
    Xml(Seq<char>),
    UnresolvedRemote,
}

impl View for Source {
    type V = SourceModel;

    open spec fn view(&self) -> SourceModel {
        SourceModel {
            revision: self.revision@,
            origin: self.origin@,
            destination: self.destination@,
        }
    }
}

impl View for Remote {
    type V = (Seq<char>, Seq<char>);

    open spec fn view(&self) -> (Seq<char>, Seq<char>) {
        (self.name@, self.fetch@)
    }
}

impl View for Manifest {
    type V = ManifestModel;

    open spec fn view(&self) -> ManifestModel {
        ManifestModel {
            default_remote: match self.default_remote {
                Some(name) => Some(name@),
                None => None,
            },
            remotes: self.remotes@.map_values(|remote: Remote| remote@),
            sources: self.sources@.map_values(|source: Source| source@),
        }
    }
}

impl View for ManifestError {
    type V = ManifestFault;

    open spec fn view(&self) -> ManifestFault {
        match self {
            ManifestError::Xml(report) => ManifestFault::Xml(report@),
            ManifestError::UnresolvedRemote => ManifestFault::UnresolvedRemote,
        }
    }
}

/// The name of the elements that list a repository.
pub const PROJECT: &'static str = "project";

/// The name of the elements that set the default remote.
pub const DEFAULT: &'static str = "default";

/// The name of the elements that declare a remote, and the key of the
/// attribute by which a project or the default names one.
pub const REMOTE: &'static str = "remote";

/// The key of the name of a project or of a remote.
pub const NAME: &'static str = "name";

/// The key of the destination of a project.
pub const PATH: &'static str = "path";

/// The key of the revision of a project.
pub const REVISION: &'static str = "revision";

/// The key of the address of a remote.
pub const FETCH: &'static str = "fetch";

/// What stands between the address of a remote and the name of a project in
/// an origin.
pub const SEPARATOR: &'static str = "/";

/// The index of the first remote with the name `name`; the number of remotes
/// where there is none.
pub open spec fn remote_index(remotes: Seq<(Seq<char>, Seq<char>)>, name: Seq<char>) -> int
    decreases remotes.len(),
{
    if remotes.len() == 0 {
        0
    } else if remotes[0].0 == name {
        0
    } else {
        1 + remote_index(remotes.skip(1), name)
    }
}

/// The address of the remote with the name `name`, if there is one.
pub open spec fn remote_address(remotes: Seq<(Seq<char>, Seq<char>)>, name: Seq<char>) -> Option<
    Seq<char>,
> {
    let at = remote_index(remotes, name);
    if 0 <= at < remotes.len() {
        Some(remotes[at].1)
    } else {
        None
    }
}

/// The remotes after one was declared: it replaces the remote of the same
/// name, or is added at the end where there is none.
pub open spec fn with_remote(
    remotes: Seq<(Seq<char>, Seq<char>)>,
    name: Seq<char>,
    fetch: Seq<char>,
) -> Seq<(Seq<char>, Seq<char>)> {
    let at = remote_index(remotes, name);
    if 0 <= at < remotes.len() {
        remotes.update(at, (name, fetch))
    } else {
        remotes.push((name, fetch))
    }
}

/// The manifest after an empty element was read.
///
/// A `remote` element with a name and an address declares a remote. A
/// `default` element sets the default remote to the one it names, or to none.
/// A `project` element needs a name and a remote that was declared before it,
/// its own or else the default; with a revision and a path it then lists a
/// repository whose origin is the address of the remote, a separator and the
/// name. Other elements change nothing.
pub open spec fn absorb(manifest: ManifestModel, element: ElementModel) -> Result<
    ManifestModel,
    ManifestFault,
> {
    let attributes = element.attributes;
    if element.name == PROJECT.spec_bytes() {
        let name = attribute_text(attributes, NAME.spec_bytes());
        let path = attribute_text(attributes, PATH.spec_bytes());
        let revision = attribute_text(attributes, REVISION.spec_bytes());
        let remote = attribute_text(attributes, REMOTE.spec_bytes());
        let chosen = if remote is Some {
            remote
        } else {
            manifest.default_remote
        };
        let address = match chosen {
            Some(remote) => remote_address(manifest.remotes, remote),
            None => None,
        };
        match (address, name) {
            (Some(address), Some(name)) => match (revision, path) {
                (Some(revision), Some(destination)) => Ok(
                    ManifestModel {
                        sources: manifest.sources.push(
                            SourceModel {
                                revision,
                                origin: address + SEPARATOR@ + name,
                                destination,
                            },
                        ),
                        ..manifest
                    },
                ),
                _ => Ok(manifest),
            },
            _ => Err(ManifestFault::UnresolvedRemote),
        }
    } else if element.name == DEFAULT.spec_bytes() {
        Ok(
            ManifestModel {
                default_remote: attribute_text(attributes, REMOTE.spec_bytes()),
                ..manifest
            },
        )
    } else if element.name == REMOTE.spec_bytes() {
        match (
            attribute_text(attributes, NAME.spec_bytes()),
            attribute_text(attributes, FETCH.spec_bytes()),
        ) {
            (Some(name), Some(fetch)) => Ok(
                ManifestModel { remotes: with_remote(manifest.remotes, name, fetch), ..manifest },
            ),
            _ => Ok(manifest),
        }
    } else {
        Ok(manifest)
    }
}

/// The manifest after the events of a document were read in turn, up to its
/// end. The first fault of the document, or the first project without a
/// remote, ends the reading with that error.
pub open spec fn read_all(manifest: ManifestModel, events: Seq<EventModel>) -> Result<
    ManifestModel,
    ManifestFault,
>
    decreases events.len(),
{
    if events.len() == 0 {
        Ok(manifest)
    } else {
        match events[0] {
            EventModel::Eof => Ok(manifest),
            EventModel::Fault(report) => Err(ManifestFault::Xml(report)),
            EventModel::Other => read_all(manifest, events.skip(1)),
            EventModel::Empty(element) => match absorb(manifest, element) {
                Ok(next) => read_all(next, events.skip(1)),
                Err(fault) => Err(fault),
            },
        }
    }
}

/// The manifest that lists nothing.
pub open spec fn empty_manifest() -> ManifestModel {
    ManifestModel { default_remote: None, remotes: Seq::empty(), sources: Seq::empty() }
}

/// Whether a result of reading is the given one.
pub open spec fn reads_as(
    manifest: Result<Manifest, ManifestError>,
    expected: Result<ManifestModel, ManifestFault>,
) -> bool {
    match (manifest, expected) {
        (Ok(manifest), Ok(model)) => manifest@ == model,
        (Err(error), Err(fault)) => error@ == fault,
        _ => false,
    }
}

/// Finds the first of `remotes` with the name `name`.
fn find_remote(remotes: &Vec<Remote>, name: &String) -> (found: Option<usize>)
    ensures
        match found {
            Some(at) => at < remotes.len() && at == remote_index(
                remotes@.map_values(|remote: Remote| remote@),
                name@,
            ),
            None => remote_index(remotes@.map_values(|remote: Remote| remote@), name@)
                == remotes.len(),
        },
{
    let ghost all = remotes@.map_values(|remote: Remote| remote@);
    let mut i: usize = 0;
    assert(all.skip(0) =~= all);
    while i < remotes.len()
        invariant
            i <= remotes.len(),
            all == remotes@.map_values(|remote: Remote| remote@),
            remote_index(all, name@) == i + remote_index(all.skip(i as int), name@),
        decreases remotes.len() - i,
    {
        let ghost rest = all.skip(i as int);
        assert(rest.skip(1) =~= all.skip(i + 1));
        if remotes[i].name == *name {
            return Some(i);
        }
        i += 1;
    }
    None
}

impl Manifest {
    /// A manifest that lists nothing.
    pub fn new() -> (manifest: Manifest)
        ensures
            manifest@ == empty_manifest(),
    {
        let manifest = Manifest { default_remote: None, remotes: Vec::new(), sources: Vec::new() };
        assert(manifest@.remotes =~= Seq::empty());
        assert(manifest@.sources =~= Seq::empty());
        manifest
    }

    /// Takes an empty element of the document into the manifest. The
    /// manifest stays as it is where the element is a project for which no
    /// origin can be made.
    pub fn record(&mut self, element: &XmlElement) -> (recorded: Result<(), ManifestError>)
        ensures
            match absorb(old(self)@, element@) {
                Ok(next) => recorded is Ok && final(self)@ == next,
                Err(fault) => recorded matches Err(error) && error@ == fault && final(self)@ == old(
                    self,
                )@,
            },
    {
        let ghost before = self@;
        if same_bytes(element.name.as_slice(), PROJECT.as_bytes()) {
            let name = string_attr(element, NAME.as_bytes());
            let path = string_attr(element, PATH.as_bytes());
            let revision = string_attr(element, REVISION.as_bytes());
            let remote = string_attr(element, REMOTE.as_bytes());
            let chosen: Option<&String> = match &remote {
                Some(remote) => Some(remote),
                None => match &self.default_remote {
                    Some(remote) => Some(remote),
                    None => None,
                },
            };
            let address: Option<String> = match chosen {
                Some(remote) => match find_remote(&self.remotes, remote) {
                    Some(at) => Some(self.remotes[at].fetch.clone()),
                    None => None,
                },
                None => None,
            };
            match (address, name) {
                (Some(address), Some(name)) => {
                    let origin = address.concat(SEPARATOR).concat(name.as_str());
                    match (revision, path) {
                        (Some(revision), Some(destination)) => {
                            let source = Source { revision, origin, destination };
                            let ghost listed = source@;
                            self.sources.push(source);
                            assert(self@.sources =~= before.sources.push(listed));
                        },
                        _ => {},
                    }
                    Ok(())
                },
                _ => Err(ManifestError::UnresolvedRemote),
            }
        } else if same_bytes(element.name.as_slice(), DEFAULT.as_bytes()) {
            self.default_remote = string_attr(element, REMOTE.as_bytes());
            Ok(())
        } else if same_bytes(element.name.as_slice(), REMOTE.as_bytes()) {
            let name = string_attr(element, NAME.as_bytes());
            let fetch = string_attr(element, FETCH.as_bytes());
            match (name, fetch) {
                (Some(name), Some(fetch)) => {
                    let ghost declared = (name@, fetch@);
                    match find_remote(&self.remotes, &name) {
                        Some(at) => {
                            self.remotes.set(at, Remote { name, fetch });
                            assert(self@.remotes =~= before.remotes.update(at as int, declared));
                        },
                        None => {
                            self.remotes.push(Remote { name, fetch });
                            assert(self@.remotes =~= before.remotes.push(declared));
                        },
                    }
                },
                _ => {},
            }
            Ok(())
        } else {
            Ok(())
        }
    }

    /// Reads a manifest from the bytes of its document. Only the elements
    /// without content count: the remotes, the default and the projects, in
    /// the order of the document.
    pub fn from_reader(bytes: &[u8]) -> (manifest: Result<Manifest, ManifestError>)
        ensures
            reads_as(manifest, read_all(empty_manifest(), document_events(bytes@))),
    {
        let mut reader = open_document(bytes);
        let mut manifest = Manifest::new();
        let ghost all = document_events(bytes@);
        loop
            invariant
                read_all(empty_manifest(), all) == read_all(manifest@, upcoming(reader)),
                all == document_events(bytes@),
            decreases upcoming(reader).len(),
        {
            let event = next_event(&mut reader);
            match event {
                Err(report) => {
                    return Err(ManifestError::Xml(report));
                },
                Ok(XmlEvent::Eof) => {
                    return Ok(manifest);
                },
                Ok(XmlEvent::Other) => {},
                Ok(XmlEvent::Empty(tag)) => {
                    match manifest.record(&element_of(&tag)) {
                        Ok(_) => {},
                        Err(error) => {
                            return Err(error);
                        },
                    }
                },
            }
        }
    }
}

} // verus!
