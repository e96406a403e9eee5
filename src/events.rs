use vstd::prelude::*;

verus! {

/// One event reported by the synchronization engine while a task runs.
pub enum SynchronizationEvent {
    Stored { src: String, dst: String, generated: bool },
    Skipped { src: String, existing: String },
    Errored { src: String, cause: String },
    ScanProgress { count: u64 },
    ScanCompleted { count: u64 },
}

/// One element of a delivered batch: an engine event, or the terminal
/// `Completed` marker that closes the stream of a task.
pub enum SynchronizationEventJson {
    Stored { src: String, dst: String, generated: bool },
    Skipped { src: String, existing: String },
    Errored { src: String, cause: String },
    ScanProgress { count: u64 },
    ScanComplete { count: u64 },
    Completed,
}

/// The envelope that carries an engine event: same variant, same payload.
pub open spec fn envelope_of(e: SynchronizationEvent) -> SynchronizationEventJson {
    match e {
        SynchronizationEvent::Stored { src, dst, generated } => SynchronizationEventJson::Stored {
            src,
            dst,
            generated,
        },
        SynchronizationEvent::Skipped { src, existing } => SynchronizationEventJson::Skipped {
            src,
            existing,
        },
        SynchronizationEvent::Errored { src, cause } => SynchronizationEventJson::Errored {
            src,
            cause,
        },
        SynchronizationEvent::ScanProgress { count } => SynchronizationEventJson::ScanProgress {
            count,
        },
        SynchronizationEvent::ScanCompleted { count } => SynchronizationEventJson::ScanComplete {
            count,
        },
    }
}

/// The number of terminal markers in a sequence of envelopes.
pub open spec fn completed_count(s: Seq<SynchronizationEventJson>) -> nat
    decreases s.len(),
{
    if s.len() == 0 {
        0
    } else {
        completed_count(s.drop_last()) + if s.last() is Completed {
            1nat
        } else {
            0nat
        }
    }
}

pub proof fn lemma_envelope_not_completed(e: SynchronizationEvent)
    ensures
        !(envelope_of(e) is Completed),
{
}

impl SynchronizationEventJson {
    /// The discriminator under which this envelope travels on the wire.
    pub fn event_type(&self) -> (r: String)
        ensures
            r@ == event_type_of(*self),
    {
        match self {
            SynchronizationEventJson::Stored { .. } => String::from_str("stored"),
            SynchronizationEventJson::Skipped { .. } => String::from_str("skipped"),
            SynchronizationEventJson::Errored { .. } => String::from_str("errored"),
            SynchronizationEventJson::ScanProgress { .. } => String::from_str("scan-progress"),
            SynchronizationEventJson::ScanComplete { .. } => String::from_str("scan-complete"),
            SynchronizationEventJson::Completed => String::from_str("completed"),
        }
    }
}

pub open spec fn event_type_of(e: SynchronizationEventJson) -> Seq<char> {
    match e {
        SynchronizationEventJson::Stored { .. } => "stored"@,
        SynchronizationEventJson::Skipped { .. } => "skipped"@,
        SynchronizationEventJson::Errored { .. } => "errored"@,
        SynchronizationEventJson::ScanProgress { .. } => "scan-progress"@,
        SynchronizationEventJson::ScanComplete { .. } => "scan-complete"@,
        SynchronizationEventJson::Completed => "completed"@,
    }
}

impl From<SynchronizationEvent> for SynchronizationEventJson {
    fn from(value: SynchronizationEvent) -> (r: Self)
        ensures
            r == envelope_of(value),
    {
        match value {
            SynchronizationEvent::Stored { src, dst, generated } => Self::Stored {
                src,
                dst,
                generated,
            },
            SynchronizationEvent::Skipped { src, existing } => Self::Skipped { src, existing },
            SynchronizationEvent::Errored { src, cause } => Self::Errored { src, cause },
            SynchronizationEvent::ScanProgress { count } => Self::ScanProgress { count },
            SynchronizationEvent::ScanCompleted { count } => Self::ScanComplete { count },
        }
    }
}

impl vstd::std_specs::convert::FromSpecImpl<SynchronizationEvent> for SynchronizationEventJson {
    open spec fn obeys_from_spec() -> bool {
        true
    }

    open spec fn from_spec(v: SynchronizationEvent) -> Self {
        envelope_of(v)
    }
}

} // verus!
