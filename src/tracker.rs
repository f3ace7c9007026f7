//! What the user interface keeps of a transfer it started: the session's
//! identifier, its target and source, and the progress shown so far.
use vstd::prelude::*;
use crate::device::{Device, DeviceView};
use crate::os_list::{OperatingSystemList, OperatingSystemView, Source, SourceView};
use crate::transfer::Progress;

verus! {

/// What is shown of a transfer.
#[derive(Clone, Copy, Debug, PartialEq, Eq, Structural)]
pub enum Status {
    Idle,
    /// `written` of `total` bytes are on the device.
    Progressing { written: u64, total: u64 },
    Finished,
    Errored,
}

/// The status after a start request: a transfer that is under way ignores it.
pub open spec fn started(s: Status) -> Status {
    match s {
        Status::Progressing { .. } => s,
        _ => Status::Progressing { written: 0, total: 0 },
    }
}

/// The status after a progress event: only a transfer under way takes it.
pub open spec fn advanced(s: Status, p: Progress) -> Status {
    match s {
        Status::Progressing { .. } => match p {
            Progress::Started => Status::Progressing { written: 0, total: 0 },
            Progress::Advanced { written, total } => Status::Progressing { written, total },
            Progress::Finished => Status::Finished,
            Progress::Errored(_) => Status::Errored,
        },
        _ => s,
    }
}

impl Status {
    pub fn start(&mut self)
        ensures
            *final(self) == started(*old(self)),
    {
        match self {
            Status::Progressing { .. } => {},
            _ => {
                *self = Status::Progressing { written: 0, total: 0 };
            },
        }
    }

    pub fn progress(&mut self, p: Progress)
        ensures
            *final(self) == advanced(*old(self), p),
    {
        if let Status::Progressing { .. } = self {
            *self = match p {
                Progress::Started => Status::Progressing { written: 0, total: 0 },
                Progress::Advanced { written, total } => Status::Progressing { written, total },
                Progress::Finished => Status::Finished,
                Progress::Errored(_) => Status::Errored,
            };
        }
    }
}

/// A transfer from a local file.
#[derive(Debug)]
pub struct Read {
    id: usize,
    dev: Device,
    path: String,
    state: Status,
}

/// A transfer from a remote source.
#[derive(Debug)]
pub struct Download {
    id: usize,
    dev: Device,
    url: String,
    state: Status,
}

/// The mathematical value of a [`Read`] or a [`Download`]: the session
/// identifier, the target device, the source's path or URL, and the status.
pub struct JobView {
    pub id: usize,
    pub dev: DeviceView,
    pub source: Seq<char>,
    pub state: Status,
}

impl View for Read {
    type V = JobView;

    closed spec fn view(&self) -> JobView {
        JobView { id: self.id, dev: self.dev@, source: self.path@, state: self.state }
    }
}

impl View for Download {
    type V = JobView;

    closed spec fn view(&self) -> JobView {
        JobView { id: self.id, dev: self.dev@, source: self.url@, state: self.state }
    }
}

impl Read {
    pub fn new(id: usize, path: String, dev: Device) -> (r: Self)
        ensures
            r@ == (JobView { id, dev: dev@, source: path@, state: Status::Idle }),
    {
        Read { id, dev, path, state: Status::Idle }
    }

    /// Starts the transfer unless it is under way.
    pub fn start(&mut self)
        ensures
            final(self)@ == (JobView { state: started(old(self)@.state), ..old(self)@ }),
    {
        self.state.start();
    }

    /// Takes a progress event of the transfer's session.
    pub fn progress(&mut self, new_progress: Progress)
        ensures
            final(self)@ == (JobView { state: advanced(old(self)@.state, new_progress), ..old(self)@ }),
    {
        self.state.progress(new_progress);
    }

    pub fn state(&self) -> (r: &Status)
        ensures
            *r == self@.state,
    {
        &self.state
    }

    pub fn id(&self) -> (r: usize)
        ensures
            r == self@.id,
    {
        self.id
    }

    pub fn dev(&self) -> (r: &Device)
        ensures
            r@ == self@.dev,
    {
        &self.dev
    }

    pub fn path(&self) -> (r: &String)
        ensures
            r@ == self@.source,
    {
        &self.path
    }
}

impl Download {
    pub fn new(id: usize, url: String, dev: Device) -> (r: Self)
        ensures
            r@ == (JobView { id, dev: dev@, source: url@, state: Status::Idle }),
    {
        Download { id, dev, url, state: Status::Idle }
    }

    /// Starts the transfer unless it is under way.
    pub fn start(&mut self)
        ensures
            final(self)@ == (JobView { state: started(old(self)@.state), ..old(self)@ }),
    {
        self.state.start();
    }

    /// Takes a progress event of the transfer's session.
    pub fn progress(&mut self, new_progress: Progress)
        ensures
            final(self)@ == (JobView { state: advanced(old(self)@.state, new_progress), ..old(self)@ }),
    {
        self.state.progress(new_progress);
    }

    pub fn state(&self) -> (r: &Status)
        ensures
            *r == self@.state,
    {
        &self.state
    }

    pub fn id(&self) -> (r: usize)
        ensures
            r == self@.id,
    {
        self.id
    }

    pub fn dev(&self) -> (r: &Device)
        ensures
            r@ == self@.dev,
    {
        &self.dev
    }

    pub fn url(&self) -> (r: &String)
        ensures
            r@ == self@.source,
    {
        &self.url
    }
}

/// Why writing cannot start.
#[derive(Clone, Copy, Debug, PartialEq, Eq, Structural)]
pub enum StartError {
    /// The list of operating systems could not be loaded.
    NoList,
    /// The selected entry is not in the list.
    NoSystem,
    /// No device is selected, or the selected one is gone.
    NoDevice,
}

/// The message shown for `e`.
pub open spec fn message_of(e: StartError) -> Seq<char> {
    match e {
        StartError::NoList => "Failed to get the ISO list"@,
        StartError::NoSystem => "Failed to get the selected system"@,
        StartError::NoDevice => "Failed to get device"@,
    }
}

impl StartError {
    /// The message shown to the user.
    pub fn message(&self) -> (r: String)
        ensures
            r@ == message_of(*self),
    {
        match self {
            StartError::NoList => "Failed to get the ISO list".to_owned(),
            StartError::NoSystem => "Failed to get the selected system".to_owned(),
            StartError::NoDevice => "Failed to get device".to_owned(),
        }
    }
}

/// A started transfer: a download for a remote image, a read for a local one.
#[derive(Debug)]
pub enum Job {
    Download(Download),
    Read(Read),
}

/// The job that starts writing `os` onto `dev` as session `id`.
pub open spec fn job_for(os: OperatingSystemView, dev: DeviceView, id: usize) -> (bool, JobView) {
    match os.source {
        SourceView::Url(u) => (
            true,
            JobView { id, dev, source: u, state: Status::Progressing { written: 0, total: 0 } },
        ),
        SourceView::File(p) => (
            false,
            JobView { id, dev, source: p, state: Status::Progressing { written: 0, total: 0 } },
        ),
    }
}

/// Starts writing entry `region` of `list` onto `device`, as a new session
/// whose identifier follows `last_id`.
pub fn start_writing(
    list: &Option<OperatingSystemList>,
    region: usize,
    device: Option<&Device>,
    last_id: &mut usize,
) -> (r: Result<Job, StartError>)
    ensures
        list is None ==> r == Err::<Job, StartError>(StartError::NoList),
        list matches Some(l) && region >= l@.len() ==> r == Err::<Job, StartError>(
            StartError::NoSystem,
        ),
        list matches Some(l) && region < l@.len() && device is None ==> r == Err::<Job, StartError>(
            StartError::NoDevice,
        ),
        r is Err ==> *final(last_id) == *old(last_id),
        list is Some && region < list.unwrap()@.len() && device is Some ==> {
            &&& *final(last_id) == (if *old(last_id) == usize::MAX { 0 } else { *old(last_id) + 1 })
            &&& r is Ok
            &&& match r.unwrap() {
                Job::Download(j) => job_for(
                    list.unwrap()@[region as int],
                    device.unwrap()@,
                    *final(last_id),
                ) == (true, j@),
                Job::Read(j) => job_for(
                    list.unwrap()@[region as int],
                    device.unwrap()@,
                    *final(last_id),
                ) == (false, j@),
            }
        },
{
    let l = match list {
        None => return Err(StartError::NoList),
        Some(l) => l,
    };
    let os = match l.get(region) {
        None => return Err(StartError::NoSystem),
        Some(os) => os,
    };
    let dev = match device {
        None => return Err(StartError::NoDevice),
        Some(d) => d,
    };
    *last_id = if *last_id == usize::MAX {
        0
    } else {
        *last_id + 1
    };
    match os.source() {
        Source::Url(url) => {
            let mut job = Download::new(*last_id, url.clone(), dev.duplicate());
            job.start();
            Ok(Job::Download(job))
        },
        Source::File(path) => {
            let mut job = Read::new(*last_id, path.clone(), dev.duplicate());
            job.start();
            Ok(Job::Read(job))
        },
    }
}

/// The device of `devices` with identifier `id`, the first if several have it.
pub fn find_device<'a>(devices: &'a Vec<Device>, id: &String) -> (r: Option<&'a Device>)
    ensures
        r is None <==> forall|i: int| 0 <= i < devices.len() ==> devices@[i].id@ != id@,
        r matches Some(d) ==> exists|i: int|
            0 <= i < devices.len() && d == &devices@[i] && devices@[i].id@ == id@
                && forall|j: int| 0 <= j < i ==> devices@[j].id@ != id@,
{
    let mut i: usize = 0;
    while i < devices.len()
        invariant
            i <= devices.len(),
            forall|j: int| 0 <= j < i ==> devices@[j].id@ != id@,
        decreases devices.len() - i,
    {
        if devices[i].id == *id {
            return Some(&devices[i]);
        }
        i += 1;
    }
    None
}

} // verus!
