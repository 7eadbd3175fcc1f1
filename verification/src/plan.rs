//! The ports of one scan and their division into batches.

use vstd::prelude::*;

verus! {

/// Largest number of ports handed to a worker in one batch.
pub const BATCH_SIZE: usize = 1000;

/// Number of workers used when the host does not tell how many it can run.
pub const DEFAULT_WORKERS: usize = 8;

/// Highest TCP port, and the number of ports of a full scan.
pub const LAST_PORT: u16 = 65535;

/// Every port from 1 to 65535, ascending.
pub open spec fn full_range() -> Seq<u16> {
    Seq::new(LAST_PORT as nat, |i: int| (i + 1) as u16)
}

/// The ports a scan visits, in visiting order: the explicit list as it was
/// given, or the full range where none was given.
pub open spec fn port_sequence_of(explicit: Option<Seq<u16>>) -> Seq<u16> {
    match explicit {
        Some(list) => list,
        None => full_range(),
    }
}

/// Number of batches that `total` ports are cut into: `total / BATCH_SIZE`,
/// rounded up.
pub open spec fn batch_count(total: nat) -> nat {
    ((total + BATCH_SIZE - 1) / (BATCH_SIZE as int)) as nat
}

/// The `k`-th batch of `ports`: the ports at positions
/// `k * BATCH_SIZE .. (k + 1) * BATCH_SIZE`, cut off at the end of `ports`.
pub open spec fn batch_of(ports: Seq<u16>, k: int) -> Seq<u16> {
    let start = k * BATCH_SIZE;
    let end = if start + BATCH_SIZE <= ports.len() {
        start + BATCH_SIZE
    } else {
        ports.len() as int
    };
    ports.subrange(start, end)
}

/// All batches of `ports`, in order.
pub open spec fn batches_of(ports: Seq<u16>) -> Seq<Seq<u16>> {
    Seq::new(batch_count(ports.len()), |k: int| batch_of(ports, k))
}

/// The size of the worker pool: what the host reports, or the default.
pub fn worker_count(available: Option<usize>) -> (workers: usize)
    ensures
        workers == match available {
            Some(n) => n,
            None => DEFAULT_WORKERS,
        },
{
    match available {
        Some(n) => n,
        None => DEFAULT_WORKERS,
    }
}

/// The ports to scan: `ports_to_scan` unchanged where it is given (an empty
/// list stays empty), else every port from 1 to 65535.
pub fn port_sequence(ports_to_scan: Option<Vec<u16>>) -> (ports: Vec<u16>)
    ensures
        ports@ == port_sequence_of(
            match ports_to_scan {
                Some(list) => Some(list@),
                None => None,
            },
        ),
{
    match ports_to_scan {
        Some(list) => list,
        None => {
            let mut ports: Vec<u16> = Vec::new();
            let mut port: u16 = 0;
            while port < LAST_PORT
                invariant
                    port <= LAST_PORT,
                    ports@ == full_range().take(port as int),
                decreases LAST_PORT - port,
            {
                port = port + 1;
                ports.push(port);
                assert(ports@ == full_range().take(port as int));
            }
            assert(full_range().take(LAST_PORT as int) == full_range());
            ports
        },
    }
}

/// Cuts `ports` into consecutive batches of `BATCH_SIZE` ports; only the last
/// batch may be shorter, and no batch is empty.
pub fn partition(ports: &Vec<u16>) -> (batches: Vec<Vec<u16>>)
    ensures
        batches@.len() == batch_count(ports@.len()),
        forall|k: int| 0 <= k < batches@.len() ==> (#[trigger] batches@[k])@ == batch_of(ports@, k),
        batches.deep_view() == batches_of(ports@),
{
    let total: usize = ports.len();
    let mut batches: Vec<Vec<u16>> = Vec::new();
    let mut start: usize = 0;
    while start < total
        invariant
            total == ports@.len(),
            start <= total,
            start < total ==> start == batches@.len() * BATCH_SIZE,
            batches@.len() == batch_count(start as nat),
            forall|k: int|
                0 <= k < batches@.len() ==> (#[trigger] batches@[k])@ == batch_of(ports@, k),
        decreases total - start,
    {
        let end: usize = if total - start >= BATCH_SIZE {
            start + BATCH_SIZE
        } else {
            total
        };
        let mut batch: Vec<u16> = Vec::new();
        let mut i: usize = start;
        while i < end
            invariant
                start <= i <= end <= total,
                total == ports@.len(),
                batch@ == ports@.subrange(start as int, i as int),
            decreases end - i,
        {
            batch.push(ports[i]);
            i = i + 1;
            assert(batch@ == ports@.subrange(start as int, i as int));
        }
        assert(batch@ == batch_of(ports@, batches@.len() as int));
        batches.push(batch);
        start = end;
    }
    assert(batches.deep_view() =~~= batches_of(ports@));
    batches
}

/// The number of batches is the number of ports divided by `BATCH_SIZE`,
/// rounded up: the least count of full batches that holds them all.
pub proof fn lemma_batch_count_is_ceiling(total: nat)
    ensures
        batch_count(total) * BATCH_SIZE >= total,
        total > 0 ==> (batch_count(total) - 1) * BATCH_SIZE < total,
        total == 0 ==> batch_count(total) == 0,
{
}

/// No batch is empty, none holds more than `BATCH_SIZE` ports, and every
/// batch before the last is full.
pub proof fn lemma_batch_sizes(ports: Seq<u16>, k: int)
    requires
        0 <= k < batch_count(ports.len()),
    ensures
        1 <= batch_of(ports, k).len() <= BATCH_SIZE,
        k + 1 < batch_count(ports.len()) ==> batch_of(ports, k).len() == BATCH_SIZE,
{
}

/// The first `j` batches, put end to end, are the first `j * BATCH_SIZE`
/// ports (all ports, where there are fewer).
proof fn lemma_leading_batches(ports: Seq<u16>, j: int)
    requires
        0 <= j <= batch_count(ports.len()),
    ensures
        batches_of(ports).take(j).flatten() == ports.take(
            if j * BATCH_SIZE <= ports.len() {
                j * BATCH_SIZE
            } else {
                ports.len() as int
            },
        ),
    decreases j,
{
    let batches = batches_of(ports);
    if j == 0 {
        assert(batches.take(0).flatten() =~= ports.take(0));
    } else {
        lemma_leading_batches(ports, j - 1);
        assert(batches.take(j) =~= batches.take(j - 1).push(batch_of(ports, j - 1)));
        batches.take(j - 1).lemma_flatten_push(batch_of(ports, j - 1));
        let end = if j * BATCH_SIZE <= ports.len() {
            j * BATCH_SIZE
        } else {
            ports.len() as int
        };
        assert(ports.take((j - 1) * BATCH_SIZE) + batch_of(ports, j - 1) =~= ports.take(end));
    }
}

/// The batches, put end to end, are the ports in their order: every port of
/// the scan stands in exactly one batch, and nothing else does.
pub proof fn lemma_batches_cover(ports: Seq<u16>)
    ensures
        batches_of(ports).flatten() == ports,
{
    let batches = batches_of(ports);
    lemma_leading_batches(ports, batches.len() as int);
    assert(batches.take(batches.len() as int) =~= batches);
    assert(ports.take(ports.len() as int) =~= ports);
}

} // verus!
