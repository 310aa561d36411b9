//! Writing a chunk's file: the order of the steps.
use crate::text::join;
use vstd::prelude::*;

verus! {

/// The steps of writing a chunk's file. The bytes go to a temporary file first, which then gets
/// the chunk's name. If writes share flushes, one flush makes bytes and name durable together, so
/// the name comes first; otherwise the bytes are made durable before the name is given.
#[derive(Clone, Copy, Debug, PartialEq, Eq, Structural)]
pub enum FileStep {
    /// Make the directories that the chunk is kept in.
    MakeDirectory,
    /// Create the temporary file.
    Create,
    /// Write the bytes to it.
    Write,
    /// Make its bytes durable.
    Sync,
    /// Give it the chunk's name.
    Rename,
    /// Wait for a shared flush.
    Flush,
    /// List the chunk, and tell the caller that it is written.
    Finish,
}

/// The step that follows one that went well.
pub open spec fn next_file_step(done: FileStep, coalescing: bool) -> FileStep {
    match done {
        FileStep::MakeDirectory => FileStep::Create,
        FileStep::Create => FileStep::Write,
        FileStep::Write => if coalescing {
            FileStep::Rename
        } else {
            FileStep::Sync
        },
        FileStep::Sync => FileStep::Rename,
        FileStep::Rename => if coalescing {
            FileStep::Flush
        } else {
            FileStep::Finish
        },
        FileStep::Flush => FileStep::Finish,
        FileStep::Finish => FileStep::Finish,
    }
}

/// What is said of a step that failed. `place` is the path that it was about.
pub open spec fn file_complaint(done: FileStep, place: Seq<char>) -> Seq<char> {
    match done {
        FileStep::MakeDirectory => "Failed to create chunk directory: "@ + place,
        FileStep::Create => "Failed to create temporary file: "@ + place,
        FileStep::Write => "Failed to write chunk data"@,
        FileStep::Sync => "Failed to sync chunk data"@,
        FileStep::Rename => "Failed to rename chunk file: "@ + place,
        FileStep::Flush => "Failed to sync chunk data (coalesced)"@,
        FileStep::Finish => ""@,
    }
}

/// Decides what follows a step: the next one, or the complaint that ends the write.
pub fn after_file_step(done: FileStep, coalescing: bool, fine: bool, place: &str) -> (r: Result<
    FileStep,
    String,
>)
    requires
        done != FileStep::Finish,
    ensures
        fine ==> r == Ok::<FileStep, String>(next_file_step(done, coalescing)),
        !fine ==> r is Err && (r->Err_0)@ == file_complaint(done, place@),
{
    if !fine {
        return Err(
            match done {
                FileStep::MakeDirectory => join("Failed to create chunk directory: ", place),
                FileStep::Create => join("Failed to create temporary file: ", place),
                FileStep::Write => "Failed to write chunk data".to_owned(),
                FileStep::Sync => "Failed to sync chunk data".to_owned(),
                FileStep::Rename => join("Failed to rename chunk file: ", place),
                FileStep::Flush => "Failed to sync chunk data (coalesced)".to_owned(),
                FileStep::Finish => "".to_owned(),
            },
        );
    }
    Ok(
        match done {
            FileStep::MakeDirectory => FileStep::Create,
            FileStep::Create => FileStep::Write,
            FileStep::Write => if coalescing {
                FileStep::Rename
            } else {
                FileStep::Sync
            },
            FileStep::Sync => FileStep::Rename,
            FileStep::Rename => if coalescing {
                FileStep::Flush
            } else {
                FileStep::Finish
            },
            FileStep::Flush => FileStep::Finish,
            FileStep::Finish => FileStep::Finish,
        },
    )
}

// ---------------------------------------------------------------------------
// What is on disk meanwhile.
// ---------------------------------------------------------------------------

/// The files that a write of a chunk is about.
pub ghost struct FileDisk {
    /// The temporary file.
    pub temp: Option<Seq<u8>>,
    /// The file under the chunk's name.
    pub named: Option<Seq<u8>>,
    /// The bytes that were written last are durable.
    pub durable: bool,
}

/// What a step does, if it goes well.
pub open spec fn file_effect(d: FileDisk, step: FileStep, data: Seq<u8>) -> FileDisk {
    match step {
        FileStep::Create => FileDisk { temp: Some(Seq::empty()), durable: false, ..d },
        FileStep::Write => FileDisk { temp: Some(data), durable: false, ..d },
        FileStep::Sync => FileDisk { durable: true, ..d },
        FileStep::Rename => FileDisk { temp: None, named: d.temp, ..d },
        FileStep::Flush => FileDisk { durable: true, ..d },
        _ => d,
    }
}

/// The disk after so many steps from the beginning on.
pub open spec fn disk_after(d: FileDisk, data: Seq<u8>, coalescing: bool, steps: nat) -> FileDisk
    decreases steps,
{
    if steps == 0 {
        d
    } else {
        file_effect(
            disk_after(d, data, coalescing, (steps - 1) as nat),
            step_at(coalescing, (steps - 1) as nat),
            data,
        )
    }
}

/// The step at a place of the run.
pub open spec fn step_at(coalescing: bool, k: nat) -> FileStep
    decreases k,
{
    if k == 0 {
        FileStep::MakeDirectory
    } else {
        next_file_step(step_at(coalescing, (k - 1) as nat), coalescing)
    }
}

/// However far a write got, what stands under the chunk's name is what stood there before, or all
/// of the new bytes: never a part of them.
pub proof fn a_chunk_is_never_seen_half_written(
    before: FileDisk,
    data: Seq<u8>,
    coalescing: bool,
    steps: nat,
)
    ensures
        disk_after(before, data, coalescing, steps).named == before.named || disk_after(
            before,
            data,
            coalescing,
            steps,
        ).named == Some(data),
{
    write_facts(before, data, coalescing, steps);
}

/// A caller is told that a chunk is written only once all of its bytes stand under its name and
/// are durable.
pub proof fn a_finished_write_is_durable(
    before: FileDisk,
    data: Seq<u8>,
    coalescing: bool,
    steps: nat,
)
    requires
        step_at(coalescing, steps) == FileStep::Finish,
    ensures
        disk_after(before, data, coalescing, steps).named == Some(data),
        disk_after(before, data, coalescing, steps).durable,
{
    write_facts(before, data, coalescing, steps);
}

proof fn write_facts(before: FileDisk, data: Seq<u8>, coalescing: bool, steps: nat)
    ensures
        ({
            let d = disk_after(before, data, coalescing, steps);
            match step_at(coalescing, steps) {
                FileStep::MakeDirectory => d == before,
                FileStep::Create => d.named == before.named,
                FileStep::Write => d.named == before.named && d.temp == Some(Seq::<u8>::empty()),
                FileStep::Sync => d.named == before.named && d.temp == Some(data) && !coalescing,
                FileStep::Rename => d.named == before.named && d.temp == Some(data) && (coalescing
                    || d.durable),
                FileStep::Flush => d.named == Some(data) && coalescing,
                FileStep::Finish => d.named == Some(data) && d.durable,
            }
        }),
    decreases steps,
{
    if steps > 0 {
        write_facts(before, data, coalescing, (steps - 1) as nat);
    }
}

} // verus!
