use linux_creation_tool::access::AccessError;
use linux_creation_tool::transfer::{
    Action, Event, NetworkError, Progress, SourceKind, State, Transfer, TransferError,
};

/// An in-memory source and device, driven through one session.
struct Rig {
    declared: Option<u64>,
    chunks: Vec<Vec<u8>>,
    fail_pull_at: Option<usize>,
    fetch_fails: bool,
    open: Result<(), AccessError>,
    measure_fails: bool,
    seek_fails: bool,
    fail_write_at: Option<usize>,
    device: Vec<u8>,
    extent: u64,
}

struct Outcome {
    events: Vec<Progress>,
    device: Vec<u8>,
    seeks: Vec<u64>,
    bytes_written: usize,
    states: Vec<State>,
}

impl Rig {
    fn new(declared: Option<u64>, chunks: Vec<Vec<u8>>) -> Rig {
        Rig {
            declared,
            chunks,
            fail_pull_at: None,
            fetch_fails: false,
            open: Ok(()),
            measure_fails: false,
            seek_fails: false,
            fail_write_at: None,
            device: Vec::new(),
            extent: 0,
        }
    }

    fn run(mut self, kind: SourceKind) -> Outcome {
        let mut t = Transfer::new(kind);
        let mut event = Event::Begin;
        let mut events = Vec::new();
        let mut seeks = Vec::new();
        let mut states = vec![t.state()];
        let mut cursor = 0usize;
        let mut pulled = 0usize;
        let mut writes = 0usize;
        let mut bytes_written = 0usize;
        for _ in 0..1_000_000 {
            let (progress, action) = t.step(event);
            states.push(t.state());
            if let Some(p) = progress {
                events.push(p);
            }
            event = match action {
                Action::Fetch => {
                    if self.fetch_fails {
                        Event::FetchFailed
                    } else {
                        Event::Fetched(self.declared)
                    }
                }
                Action::Open => match self.open {
                    Ok(()) => Event::Opened,
                    Err(e) => Event::OpenFailed(e),
                },
                Action::Measure => {
                    if self.measure_fails {
                        Event::MeasureFailed
                    } else {
                        Event::Measured(self.extent)
                    }
                }
                Action::Seek(o) => {
                    if self.seek_fails {
                        Event::SeekFailed
                    } else {
                        seeks.push(o);
                        cursor = o as usize;
                        Event::Sought
                    }
                }
                Action::Pull => {
                    if self.fail_pull_at == Some(pulled) {
                        Event::PullFailed
                    } else if pulled < self.chunks.len() {
                        pulled += 1;
                        Event::Pulled(self.chunks[pulled - 1].clone())
                    } else {
                        Event::Ended
                    }
                }
                Action::Write(data) => {
                    if self.fail_write_at == Some(writes) {
                        Event::WriteFailed
                    } else {
                        writes += 1;
                        for (i, b) in data.iter().enumerate() {
                            if cursor + i < self.device.len() {
                                self.device[cursor + i] = *b;
                            } else {
                                self.device.push(*b);
                            }
                        }
                        cursor += data.len();
                        bytes_written += data.len();
                        Event::Written
                    }
                }
                Action::Suspend => break,
            };
        }
        Outcome { events, device: self.device, seeks, bytes_written, states }
    }
}

fn percent(p: &Progress) -> f32 {
    match p {
        Progress::Advanced { written, total } => (*written as f32 / *total as f32) * 100.0,
        _ => panic!("not an Advanced event"),
    }
}

fn image(len: usize) -> Vec<u8> {
    (0..len).map(|i| (i * 7 + i / 251) as u8).collect()
}

fn split(data: &[u8], size: usize) -> Vec<Vec<u8>> {
    data.chunks(size).map(|c| c.to_vec()).collect()
}

#[test]
fn local_three_mib_in_one_mib_chunks() {
    let mib = 1024 * 1024;
    let file = image(3 * mib);
    let out = Rig::new(Some(file.len() as u64), split(&file, mib)).run(SourceKind::Local);
    assert_eq!(out.events.len(), 5);
    assert_eq!(out.events[0], Progress::Started);
    assert!((percent(&out.events[1]) - 33.33).abs() < 0.05);
    assert!((percent(&out.events[2]) - 66.67).abs() < 0.05);
    assert_eq!(percent(&out.events[3]), 100.0);
    assert_eq!(out.events[4], Progress::Finished);
    assert_eq!(out.device, file);
    assert_eq!(out.seeks, vec![0]);
}

#[test]
fn remote_failure_then_resume() {
    let source = image(10_000);
    let mut first = Rig::new(Some(10_000), vec![source[..4000].to_vec(), source[4000..].to_vec()]);
    first.fail_pull_at = Some(1);
    let out = first.run(SourceKind::Remote);
    assert_eq!(out.events.len(), 3);
    assert_eq!(out.events[0], Progress::Started);
    assert!((percent(&out.events[1]) - 40.0).abs() < 1e-4);
    assert_eq!(
        out.events[2],
        Progress::Errored(TransferError::Network(NetworkError::StreamError))
    );
    assert_eq!(out.device, source[..4000].to_vec());

    let mut second = Rig::new(Some(10_000), split(&source, 1500));
    second.device = out.device;
    second.extent = 4000;
    let out = second.run(SourceKind::Remote);
    assert_eq!(out.bytes_written, 6000);
    assert_eq!(out.seeks, vec![4000]);
    assert_eq!(out.device, source);
    assert_eq!(out.events[0], Progress::Started);
    assert_eq!(*out.events.last().unwrap(), Progress::Finished);
    assert_eq!(
        out.events[out.events.len() - 2],
        Progress::Advanced { written: 10_000, total: 10_000 }
    );
}

#[test]
fn denied_open_emits_one_error() {
    let mut rig = Rig::new(Some(100), vec![vec![1; 100]]);
    rig.open = Err(AccessError::Denied);
    let out = rig.run(SourceKind::Local);
    assert_eq!(out.events, vec![Progress::Errored(TransferError::Access(AccessError::Denied))]);
    assert!(out.device.is_empty());
}

#[test]
fn events_come_in_order() {
    let data = image(5000);
    let out = Rig::new(Some(5000), split(&data, 700)).run(SourceKind::Remote);
    assert_eq!(out.events[0], Progress::Started);
    assert_eq!(*out.events.last().unwrap(), Progress::Finished);
    let mut last = 0.0f32;
    for p in &out.events[1..out.events.len() - 1] {
        let pct = percent(p);
        assert!(pct >= last && pct <= 100.0);
        last = pct;
    }
}

#[test]
fn source_longer_than_declared_is_held_at_total() {
    let data = image(300);
    let out = Rig::new(Some(200), split(&data, 100)).run(SourceKind::Local);
    assert_eq!(
        out.events,
        vec![
            Progress::Started,
            Progress::Advanced { written: 100, total: 200 },
            Progress::Advanced { written: 200, total: 200 },
            Progress::Advanced { written: 200, total: 200 },
            Progress::Finished,
        ]
    );
}

#[test]
fn resume_inside_a_chunk_writes_only_the_rest() {
    let data = image(1000);
    let mut rig = Rig::new(Some(1000), split(&data, 300));
    rig.device = data[..450].to_vec();
    rig.device.extend_from_slice(&[0xee; 700]);
    rig.extent = 450;
    let out = rig.run(SourceKind::Local);
    assert_eq!(out.bytes_written, 550);
    assert_eq!(out.seeks, vec![450]);
    assert_eq!(out.device[..1000].to_vec(), data);
    assert_eq!(out.device[1000..].to_vec(), vec![0xee; 150]);
    assert_eq!(
        out.events,
        vec![
            Progress::Started,
            Progress::Advanced { written: 450, total: 1000 },
            Progress::Advanced { written: 600, total: 1000 },
            Progress::Advanced { written: 900, total: 1000 },
            Progress::Advanced { written: 1000, total: 1000 },
            Progress::Finished,
        ]
    );
}

#[test]
fn extent_beyond_total_is_held_at_total() {
    let data = image(64);
    let mut rig = Rig::new(Some(64), split(&data, 64));
    rig.device = data.clone();
    rig.extent = 5000;
    let out = rig.run(SourceKind::Local);
    assert_eq!(out.seeks, vec![64]);
    assert_eq!(out.bytes_written, 0);
    assert_eq!(out.events[1], Progress::Advanced { written: 64, total: 64 });
}

#[test]
fn last_advanced_reports_whole_image() {
    let data = image(12_345);
    for size in [1usize, 7, 1000, 12_344, 12_345, 20_000] {
        let out = Rig::new(Some(12_345), split(&data, size)).run(SourceKind::Remote);
        let n = out.events.len();
        assert_eq!(out.events[n - 1], Progress::Finished);
        assert_eq!(percent(&out.events[n - 2]), 100.0);
        assert_eq!(out.device, data);
    }
}

#[test]
fn missing_length_never_transfers() {
    let out = Rig::new(None, vec![vec![1, 2, 3]]).run(SourceKind::Remote);
    assert_eq!(
        out.events,
        vec![Progress::Errored(TransferError::Network(NetworkError::NoContentLength))]
    );
    assert!(out.states.iter().all(|s| !matches!(s, State::Transferring { .. })));
    assert!(out.seeks.is_empty());
}

#[test]
fn fetch_failures_by_kind() {
    let mut remote = Rig::new(Some(1), vec![]);
    remote.fetch_fails = true;
    assert_eq!(
        remote.run(SourceKind::Remote).events,
        vec![Progress::Errored(TransferError::Network(NetworkError::ConnectFailed))]
    );
    let mut local = Rig::new(Some(1), vec![]);
    local.fetch_fails = true;
    assert_eq!(local.run(SourceKind::Local).events, vec![Progress::Errored(TransferError::Io)]);
}

#[test]
fn device_failures_are_io_errors() {
    let mut m = Rig::new(Some(10), vec![vec![0; 10]]);
    m.measure_fails = true;
    assert_eq!(m.run(SourceKind::Remote).events, vec![Progress::Errored(TransferError::Io)]);
    let mut s = Rig::new(Some(10), vec![vec![0; 10]]);
    s.seek_fails = true;
    assert_eq!(s.run(SourceKind::Remote).events, vec![Progress::Errored(TransferError::Io)]);
    let mut w = Rig::new(Some(10), vec![vec![0; 5], vec![0; 5]]);
    w.fail_write_at = Some(1);
    assert_eq!(
        w.run(SourceKind::Remote).events,
        vec![
            Progress::Started,
            Progress::Advanced { written: 5, total: 10 },
            Progress::Errored(TransferError::Io),
        ]
    );
}

#[test]
fn local_read_failure_is_io_error() {
    let mut rig = Rig::new(Some(10), vec![vec![0; 10]]);
    rig.fail_pull_at = Some(0);
    assert_eq!(
        rig.run(SourceKind::Local).events,
        vec![Progress::Started, Progress::Errored(TransferError::Io)]
    );
}

#[test]
fn open_failures_carry_their_kind() {
    for e in [AccessError::NotFound, AccessError::IpcFailure] {
        let mut rig = Rig::new(Some(10), vec![vec![0; 10]]);
        rig.open = Err(e);
        assert_eq!(rig.run(SourceKind::Remote).events, vec![Progress::Errored(TransferError::Access(e))]);
    }
}

#[test]
fn empty_image_finishes_without_advancing() {
    let out = Rig::new(Some(0), vec![]).run(SourceKind::Local);
    assert_eq!(out.events, vec![Progress::Started, Progress::Finished]);
}

#[test]
fn zero_length_chunk_is_not_the_end() {
    let out = Rig::new(Some(4), vec![vec![1, 2], vec![], vec![3, 4]]).run(SourceKind::Remote);
    assert_eq!(
        out.events,
        vec![
            Progress::Started,
            Progress::Advanced { written: 2, total: 4 },
            Progress::Advanced { written: 2, total: 4 },
            Progress::Advanced { written: 4, total: 4 },
            Progress::Finished,
        ]
    );
    assert_eq!(out.device, vec![1, 2, 3, 4]);
}

#[test]
fn terminal_session_stays_silent() {
    let mut t = Transfer::new(SourceKind::Remote);
    let _ = t.step(Event::Begin);
    let (p, a) = t.step(Event::Fetched(None));
    assert!(p.is_some());
    assert!(matches!(a, Action::Suspend));
    for e in [Event::Begin, Event::Opened, Event::Written, Event::Ended] {
        let (p, a) = t.step(e);
        assert!(p.is_none());
        assert!(matches!(a, Action::Suspend));
    }
    assert_eq!(t.state(), State::Errored(TransferError::Network(NetworkError::NoContentLength)));
    assert_eq!(t.kind(), SourceKind::Remote);
}
