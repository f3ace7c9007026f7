//! The list of operating systems a user can pick from, as handed over by the
//! loader of the catalog document.
use vstd::prelude::*;
use vstd::string::StringExecFns;

verus! {

/// The directory that holds the catalog document and the pictures.
pub const DIRECTORY: &'static str = "/etc/linux_creation_tool/";

/// The picture shown for an entry whose own picture cannot be used.
pub fn missing_picture() -> (r: String)
    ensures
        r@ == DIRECTORY@ + "pictures/missing.png"@,
{
    let mut p = DIRECTORY.to_owned();
    p.append("pictures/missing.png");
    p
}

/// Where an entry's picture is looked for: a local picture lies under
/// [`DIRECTORY`]; a remote one is not fetched.
pub fn picture_path(pic: &Source) -> (r: Option<String>)
    ensures
        pic is Url ==> r is None,
        pic matches Source::File(path) ==> (r matches Some(p) && p@ == DIRECTORY@ + path@),
{
    match pic {
        Source::Url(_) => None,
        Source::File(path) => {
            let mut p = DIRECTORY.to_owned();
            p.append(path.as_str());
            Some(p)
        },
    }
}

/// Where an image (or its preview picture) comes from.
#[derive(Clone, Debug)]
pub enum Source {
    Url(String),
    File(String),
}

/// The mathematical value of a [`Source`].
pub enum SourceView {
    Url(Seq<char>),
    File(Seq<char>),
}

impl View for Source {
    type V = SourceView;

    open spec fn view(&self) -> SourceView {
        match self {
            Source::Url(u) => SourceView::Url(u@),
            Source::File(p) => SourceView::File(p@),
        }
    }
}

/// One selectable operating system: its name, its image and its picture.
#[derive(Clone, Debug)]
pub struct OperatingSystem {
    name: String,
    source: Source,
    pic: Source,
}

/// The mathematical value of an [`OperatingSystem`].
pub struct OperatingSystemView {
    pub name: Seq<char>,
    pub source: SourceView,
    pub pic: SourceView,
}

impl View for OperatingSystem {
    type V = OperatingSystemView;

    closed spec fn view(&self) -> OperatingSystemView {
        OperatingSystemView { name: self.name@, source: self.source@, pic: self.pic@ }
    }
}

impl OperatingSystem {
    pub fn new(name: String, source: Source, pic: Source) -> (r: Self)
        ensures
            r@ == (OperatingSystemView { name: name@, source: source@, pic: pic@ }),
    {
        Self { name, source, pic }
    }

    pub fn name(&self) -> (r: &String)
        ensures
            r@ == self@.name,
    {
        &self.name
    }

    pub fn source(&self) -> (r: &Source)
        ensures
            r@ == self@.source,
    {
        &self.source
    }

    pub fn pic(&self) -> (r: &Source)
        ensures
            r@ == self@.pic,
    {
        &self.pic
    }
}

/// The operating systems in the order the catalog document lists them.
#[derive(Clone, Debug)]
pub struct OperatingSystemList {
    os: Vec<OperatingSystem>,
}

impl View for OperatingSystemList {
    type V = Seq<OperatingSystemView>;

    closed spec fn view(&self) -> Seq<OperatingSystemView> {
        self.os@.map_values(|o: OperatingSystem| o@)
    }
}

impl OperatingSystemList {
    /// A list holding `os`, in that order.
    pub fn new(os: Vec<OperatingSystem>) -> (r: Self)
        ensures
            r@ == os@.map_values(|o: OperatingSystem| o@),
    {
        Self { os }
    }

    pub fn get(&self, i: usize) -> (r: Option<&OperatingSystem>)
        ensures
            i < self@.len() ==> (r matches Some(o) && o@ == self@[i as int]),
            i >= self@.len() ==> r is None,
    {
        if i < self.os.len() {
            Some(&self.os[i])
        } else {
            None
        }
    }

    pub fn empty() -> (r: Self)
        ensures
            r@.len() == 0,
    {
        Self { os: Vec::new() }
    }

    pub fn as_vec(&self) -> (r: &Vec<OperatingSystem>)
        ensures
            r@.map_values(|o: OperatingSystem| o@) == self@,
    {
        &self.os
    }
}

} // verus!
