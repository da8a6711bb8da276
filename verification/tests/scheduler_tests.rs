use std::collections::HashMap;

use md5sum_uring::digest::digest_bytes;
use md5sum_uring::scheduler::AdmitOutcome;
use md5sum_uring::scheduler::CompleteOutcome;
use md5sum_uring::scheduler::FileError;
use md5sum_uring::scheduler::FileResult;
use md5sum_uring::scheduler::ReadRequest;
use md5sum_uring::scheduler::Scheduler;
use md5sum_uring::BLOCK_SIZE;
use md5sum_uring::MAX_READ_SIZE;

/// The repeating byte pattern the reference files are filled with: each byte
/// from b'0' up to (excluding) b'f', repeated ten times, cycled.
fn pattern(len: usize) -> Vec<u8> {
    let mut out = Vec::with_capacity(len);
    'outer: loop {
        for c in b'0'..b'f' {
            for _ in 0..10 {
                if out.len() == len {
                    break 'outer;
                }
                out.push(c);
            }
        }
    }
    out
}

/// How the simulated kernel picks which outstanding completion to deliver.
#[derive(Clone, Copy)]
enum Order {
    /// Oldest submission first.
    Fifo,
    /// Newest submission first.
    Lifo,
    /// A fixed rotation, to mix files up.
    Rotate,
}

/// A simulated completion-queue kernel over in-memory file contents: it
/// holds the outstanding read requests, delivers them in the chosen order,
/// and may deliver short reads. Paths absent from `files` fail to open.
struct SimKernel {
    files: HashMap<String, Vec<u8>>,
    outstanding: Vec<ReadRequest>,
    order: Order,
    short_reads: bool,
    rotation: usize,
}

impl SimKernel {
    fn new(files: HashMap<String, Vec<u8>>, order: Order, short_reads: bool) -> SimKernel {
        SimKernel { files, outstanding: Vec::new(), order, short_reads, rotation: 0 }
    }

    fn submit(&mut self, req: ReadRequest) {
        self.outstanding.push(req);
    }

}

/// Run the whole engine loop over the given files, in the given completion
/// order, and return every terminal result. `missing` paths are admitted as
/// open failures. Checks the concurrency bound throughout.
fn run_engine(
    paths: Vec<String>,
    files: HashMap<String, Vec<u8>>,
    n: usize,
    direct_io: bool,
    order: Order,
    short_reads: bool,
) -> Vec<FileResult> {
    // The scheduler admits from the end of its pending list; hand it the
    // list reversed so files start in the given order.
    let mut reversed = paths.clone();
    reversed.reverse();
    let mut sched = Scheduler::new(reversed, n, direct_io);
    let mut kernel = SimKernel::new(files, order, short_reads);
    let mut slot_paths: Vec<Option<String>> = vec![None; n];
    let mut results: Vec<FileResult> = Vec::new();

    loop {
        while sched.can_admit() {
            let path = sched.peek_pending().clone();
            match kernel.files.get(&path) {
                None => {
                    results.push(sched.admit_err(FileError::Open));
                }
                Some(contents) => {
                    let len = contents.len() as u64;
                    match sched.admit_ok(len) {
                        AdmitOutcome::Report(res) => results.push(res),
                        AdmitOutcome::Started(req) => {
                            assert!(req.offset == 0);
                            if direct_io {
                                assert!(req.submit_len % BLOCK_SIZE == 0);
                            }
                            slot_paths[req.slot] = Some(path.clone());
                            kernel.submit(req);
                        }
                    }
                }
            }
            assert!(sched.in_flight_count() <= n);
        }
        if sched.is_done() {
            break;
        }
        // Work is in flight: wait for one completion and route it back.
        assert!(sched.in_flight_count() >= 1);
        let (slot, bytes) = wait_one(&mut kernel, &slot_paths);
        let needed = sched.needed_len(slot);
        assert!(bytes.len() <= needed);
        match sched.complete(slot, &bytes) {
            CompleteOutcome::Finished(res) => {
                slot_paths[slot] = None;
                results.push(res);
            }
            CompleteOutcome::Resubmit(req) => {
                assert!(req.slot == slot);
                if direct_io {
                    assert!(req.submit_len % BLOCK_SIZE == 0);
                }
                kernel.submit(req);
            }
        }
        assert!(sched.in_flight_count() <= n);
    }
    assert!(sched.pending_count() == 0);
    assert!(sched.in_flight_count() == 0);
    results
}

/// Deliver one outstanding completion from the simulated kernel.
fn wait_one(kernel: &mut SimKernel, slot_paths: &[Option<String>]) -> (usize, Vec<u8>) {
    assert!(!kernel.outstanding.is_empty());
    let at = match kernel.order {
        Order::Fifo => 0,
        Order::Lifo => kernel.outstanding.len() - 1,
        Order::Rotate => {
            kernel.rotation = kernel.rotation.wrapping_mul(31).wrapping_add(7);
            kernel.rotation % kernel.outstanding.len()
        }
    };
    let req = kernel.outstanding.remove(at);
    let path = slot_paths[req.slot].as_ref().expect("slot has a file");
    let contents = &kernel.files[path];
    let offset = req.offset as usize;
    let mut take = req.len.min(contents.len() - offset);
    if kernel.short_reads && take > 1 {
        take = take / 2;
    }
    (req.slot, contents[offset..offset + take].to_vec())
}

/// The six reference sizes around the chunk ceiling.
fn six_sizes() -> Vec<usize> {
    vec![
        25,
        4096,
        MAX_READ_SIZE - 1,
        MAX_READ_SIZE,
        MAX_READ_SIZE + 1,
        MAX_READ_SIZE * 3,
    ]
}

fn six_files() -> (Vec<String>, HashMap<String, Vec<u8>>) {
    let mut paths = Vec::new();
    let mut files = HashMap::new();
    for size in six_sizes() {
        let name = format!("test/file-{}", size);
        paths.push(name.clone());
        files.insert(name, pattern(size));
    }
    (paths, files)
}

fn check_all_ok(results: &[FileResult], files: &HashMap<String, Vec<u8>>) {
    assert_eq!(results.len(), files.len());
    for res in results {
        let contents = files.get(&res.path).expect("reported path was an input");
        let digest = res.outcome.as_ref().expect("file should succeed");
        assert_eq!(digest, &digest_bytes(contents), "digest of {}", res.path);
    }
    // No path reported twice.
    let mut seen: Vec<&String> = results.iter().map(|r| &r.path).collect();
    seen.sort();
    seen.dedup();
    assert_eq!(seen.len(), results.len());
}

#[test]
fn six_files_fifo() {
    let (paths, files) = six_files();
    let results = run_engine(paths, files.clone(), 16, false, Order::Fifo, false);
    check_all_ok(&results, &files);
}

#[test]
fn six_files_lifo() {
    let (paths, files) = six_files();
    let results = run_engine(paths, files.clone(), 16, false, Order::Lifo, false);
    check_all_ok(&results, &files);
}

#[test]
fn six_files_out_of_order() {
    let (paths, files) = six_files();
    let results = run_engine(paths, files.clone(), 16, false, Order::Rotate, false);
    check_all_ok(&results, &files);
}

#[test]
fn six_files_direct_io() {
    let (paths, files) = six_files();
    let results = run_engine(paths, files.clone(), 16, true, Order::Rotate, false);
    check_all_ok(&results, &files);
}

#[test]
fn six_files_short_reads() {
    let (paths, files) = six_files();
    let results = run_engine(paths, files.clone(), 16, false, Order::Rotate, true);
    check_all_ok(&results, &files);
}

#[test]
fn two_slots_five_files() {
    let mut paths = Vec::new();
    let mut files = HashMap::new();
    for i in 0..5 {
        let name = format!("file-{}", i);
        paths.push(name.clone());
        files.insert(name, pattern(MAX_READ_SIZE * 2 + i));
    }
    // run_engine asserts in_flight_count() <= 2 after every step.
    let results = run_engine(paths, files.clone(), 2, false, Order::Rotate, false);
    check_all_ok(&results, &files);
}

#[test]
fn zero_length_file() {
    let mut files = HashMap::new();
    files.insert("empty".to_string(), Vec::new());
    let results = run_engine(vec!["empty".to_string()], files, 4, false, Order::Fifo, false);
    assert_eq!(results.len(), 1);
    assert_eq!(results[0].path, "empty");
    assert_eq!(results[0].outcome.as_ref().unwrap(), &digest_bytes(&[]));
}

#[test]
fn missing_path_reports_error_without_delaying_others() {
    let mut paths = Vec::new();
    let mut files = HashMap::new();
    for i in 0..3 {
        let name = format!("good-{}", i);
        paths.push(name.clone());
        files.insert(name, pattern(5000 + i));
    }
    paths.insert(1, "no-such-file".to_string());
    let results = run_engine(paths, files.clone(), 2, false, Order::Fifo, false);
    assert_eq!(results.len(), 4);
    let mut errors = 0;
    for res in &results {
        if res.path == "no-such-file" {
            assert_eq!(res.outcome.as_ref().unwrap_err(), &FileError::Open);
            errors += 1;
        } else {
            let contents = files.get(&res.path).unwrap();
            assert_eq!(res.outcome.as_ref().unwrap(), &digest_bytes(contents));
        }
    }
    assert_eq!(errors, 1);
}

#[test]
fn read_error_frees_the_slot() {
    let mut files = HashMap::new();
    files.insert("a".to_string(), pattern(100));
    files.insert("b".to_string(), pattern(200));
    let mut sched = Scheduler::new(vec!["b".to_string(), "a".to_string()], 1, false);
    let req = match sched.admit_ok(100) {
        AdmitOutcome::Started(req) => req,
        AdmitOutcome::Report(_) => panic!("non-empty file must start"),
    };
    // The read for "a" fails: its one result is the read error and the slot
    // frees up for "b".
    let res = sched.complete_error(req.slot);
    assert_eq!(res.path, "a");
    assert_eq!(res.outcome.unwrap_err(), FileError::Read);
    assert!(sched.can_admit());
    let req2 = match sched.admit_ok(200) {
        AdmitOutcome::Started(req2) => req2,
        AdmitOutcome::Report(_) => panic!("non-empty file must start"),
    };
    let contents = &files["b"];
    match sched.complete(req2.slot, &contents[..200]) {
        CompleteOutcome::Finished(res2) => {
            assert_eq!(res2.path, "b");
            assert_eq!(res2.outcome.unwrap(), digest_bytes(contents));
        }
        CompleteOutcome::Resubmit(_) => panic!("200 bytes finish a 200-byte file"),
    }
    assert!(sched.is_done());
}

#[test]
fn chunk_lengths_step_through_the_file() {
    // A file one byte longer than the chunk ceiling takes two reads: a full
    // chunk, then one byte.
    let size = MAX_READ_SIZE + 1;
    let contents = pattern(size);
    let mut sched = Scheduler::new(vec!["f".to_string()], 1, false);
    let req = match sched.admit_ok(size as u64) {
        AdmitOutcome::Started(req) => req,
        AdmitOutcome::Report(_) => panic!("non-empty file must start"),
    };
    assert_eq!(req.offset, 0);
    assert_eq!(req.len, MAX_READ_SIZE);
    let req2 = match sched.complete(req.slot, &contents[..MAX_READ_SIZE]) {
        CompleteOutcome::Resubmit(req2) => req2,
        CompleteOutcome::Finished(_) => panic!("one byte remains"),
    };
    assert_eq!(req2.offset, MAX_READ_SIZE as u64);
    assert_eq!(req2.len, 1);
    match sched.complete(req2.slot, &contents[MAX_READ_SIZE..]) {
        CompleteOutcome::Finished(res) => {
            assert_eq!(res.outcome.unwrap(), digest_bytes(&contents));
        }
        CompleteOutcome::Resubmit(_) => panic!("nothing remains"),
    }
}

#[test]
fn direct_io_rounds_the_final_chunk_up() {
    let mut sched = Scheduler::new(vec!["f".to_string()], 1, true);
    let req = match sched.admit_ok(25) {
        AdmitOutcome::Started(req) => req,
        AdmitOutcome::Report(_) => panic!("non-empty file must start"),
    };
    assert_eq!(req.len, 25);
    assert_eq!(req.submit_len, BLOCK_SIZE);
}

#[test]
fn backpressure_stops_admission() {
    let files: Vec<String> = (0..3).map(|i| format!("f{}", i)).collect();
    let mut sched = Scheduler::new(files, 2, false);
    assert!(sched.can_admit());
    let _ = match sched.admit_ok(10) {
        AdmitOutcome::Started(req) => req,
        AdmitOutcome::Report(_) => panic!("non-empty file must start"),
    };
    assert!(sched.can_admit());
    let _ = match sched.admit_ok(10) {
        AdmitOutcome::Started(req) => req,
        AdmitOutcome::Report(_) => panic!("non-empty file must start"),
    };
    // Both slots taken: one path still pending, but nothing can be admitted.
    assert_eq!(sched.pending_count(), 1);
    assert_eq!(sched.in_flight_count(), 2);
    assert!(!sched.can_admit());
}

#[test]
fn empty_file_takes_the_next_registration_number() {
    // An admitted empty file is finished on the spot, but it still consumes
    // a registration number: a driver that pre-registers descriptors
    // registers every opened file, so the numbering must stay in step.
    let mut sched = Scheduler::new(vec!["b".to_string(), "empty".to_string()], 2, false);
    match sched.admit_ok(0) {
        AdmitOutcome::Report(res) => {
            assert_eq!(res.path, "empty");
            assert_eq!(res.outcome.unwrap(), digest_bytes(&[]));
        }
        AdmitOutcome::Started(_) => panic!("an empty file never starts a read"),
    }
    match sched.admit_ok(10) {
        AdmitOutcome::Started(req) => assert_eq!(req.file_idx, 1),
        AdmitOutcome::Report(_) => panic!("a non-empty file must start"),
    }
}

#[test]
fn empty_file_among_others() {
    let mut paths = Vec::new();
    let mut files = HashMap::new();
    files.insert("empty".to_string(), Vec::new());
    paths.push("first".to_string());
    files.insert("first".to_string(), pattern(MAX_READ_SIZE + 7));
    paths.push("empty".to_string());
    paths.push("last".to_string());
    files.insert("last".to_string(), pattern(333));
    let results = run_engine(paths, files.clone(), 2, false, Order::Rotate, false);
    check_all_ok(&results, &files);
}
