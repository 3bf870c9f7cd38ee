use std::collections::hash_map::DefaultHasher;
use std::hash::Hasher;
use vstd::prelude::*;
use vstd::std_specs::hash::DefaultHasherAdditionalSpecFns;
use vstd::utf8::encode_utf8;

verus! {

/// A file's last-modified time: seconds and nanoseconds since the epoch.
#[derive(Clone, Copy, Debug, PartialEq, Eq)]
pub struct Timestamp {
    pub secs: u64,
    pub nanos: u32,
}

/// The `n` low bytes of `x`, least significant first.
pub open spec fn le_bytes(x: nat, n: nat) -> Seq<u8>
    decreases n,
{
    if n == 0 {
        Seq::empty()
    } else {
        seq![(x % 256) as u8] + le_bytes(x / 256, (n - 1) as nat)
    }
}

/// The bytes hashed for one timestamp: seconds, then nanoseconds, little-endian.
pub open spec fn timestamp_bytes(t: Timestamp) -> Seq<u8> {
    le_bytes(t.secs as nat, 8) + le_bytes(t.nanos as nat, 4)
}

/// The bytes hashed for a target's command: a marker byte, then the command's
/// UTF-8 bytes; a target without a rule hashes the marker alone.
pub open spec fn command_bytes(command: Option<Seq<char>>) -> Seq<u8> {
    match command {
        Some(c) => seq![1u8] + encode_utf8(c),
        None => seq![0u8],
    }
}

/// What a fingerprint hashes, write by write: the command, then each input
/// timestamp in order.
pub open spec fn fingerprint_chunks(command: Option<Seq<char>>, times: Seq<Timestamp>) -> Seq<
    Seq<u8>,
> {
    seq![command_bytes(command)] + times.map_values(|t: Timestamp| timestamp_bytes(t))
}

/// The fingerprint of a command and the timestamps of its hashed inputs.
pub open spec fn fingerprint_of(command: Option<Seq<char>>, times: Seq<Timestamp>) -> u64 {
    DefaultHasher::spec_finish(fingerprint_chunks(command, times))
}

/// The command of an optional string, as a sequence of characters.
pub open spec fn command_view(command: Option<&String>) -> Option<Seq<char>> {
    match command {
        Some(c) => Some(c@),
        None => None,
    }
}

fn push_le_bytes(x: u64, n: usize, out: &mut Vec<u8>)
    ensures
        final(out)@ == old(out)@ + le_bytes(x as nat, n as nat),
    decreases n,
{
    if n == 0 {
        assert(old(out)@ + le_bytes(x as nat, 0) =~= old(out)@);
    } else {
        out.push((x % 256) as u8);
        push_le_bytes(x / 256, n - 1, out);
        assert(final(out)@ =~= old(out)@ + le_bytes(x as nat, n as nat));
    }
}

/// The fingerprint of a target: its command (or none) and the timestamps of
/// its explicit inputs followed by those of its dynamic inputs.
pub fn fingerprint(command: Option<&String>, times: &Vec<Timestamp>) -> (r: u64)
    ensures
        r == fingerprint_of(command_view(command), times@),
{
    let mut hasher = DefaultHasher::new();
    let mut head: Vec<u8> = Vec::new();
    match command {
        Some(c) => {
            head.push(1u8);
            let bytes = c.as_str().as_bytes();
            let mut k: usize = 0;
            while k < bytes.len()
                invariant
                    k <= bytes@.len(),
                    bytes@ == encode_utf8(c@),
                    head@ == seq![1u8] + bytes@.take(k as int),
                decreases bytes@.len() - k,
            {
                head.push(bytes[k]);
                assert(bytes@.take(k + 1) =~= bytes@.take(k as int).push(bytes@[k as int]));
                k += 1;
            }
            assert(bytes@.take(k as int) =~= bytes@);
        },
        None => {
            head.push(0u8);
        },
    }
    assert(head@ =~= command_bytes(command_view(command)));
    hasher.write(head.as_slice());
    let mut i: usize = 0;
    while i < times.len()
        invariant
            i <= times@.len(),
            hasher@ == fingerprint_chunks(command_view(command), times@.take(i as int)),
        decreases times@.len() - i,
    {
        let t = times[i];
        let mut bytes: Vec<u8> = Vec::new();
        push_le_bytes(t.secs, 8, &mut bytes);
        push_le_bytes(t.nanos as u64, 4, &mut bytes);
        assert(bytes@ =~= timestamp_bytes(t));
        hasher.write(bytes.as_slice());
        assert(times@.take(i + 1) =~= times@.take(i as int).push(t));
        assert(fingerprint_chunks(command_view(command), times@.take(i + 1)) =~= fingerprint_chunks(
            command_view(command),
            times@.take(i as int),
        ).push(timestamp_bytes(t)));
        i += 1;
    }
    assert(times@.take(i as int) =~= times@);
    hasher.finish()
}

/// What the driver does with a target whose inputs are ready.
#[derive(Clone, Copy, Debug, PartialEq, Eq, Structural)]
pub enum Decision {
    /// The target is up to date: nothing runs and nothing is recorded.
    Skip,
    /// The target's command runs; its fingerprint is recorded if it succeeds.
    Run,
    /// The target has no rule: its fingerprint is recorded directly.
    Record,
}

/// Every output of a target is present on disk.
pub open spec fn all_present(present: Seq<bool>) -> bool {
    forall|k: int| 0 <= k < present.len() ==> #[trigger] present[k]
}

/// A target is up to date when the database holds exactly its fingerprint and
/// all of its outputs exist.
pub open spec fn up_to_date(stored: Option<u64>, computed: u64, present: Seq<bool>) -> bool {
    stored == Some(computed) && all_present(present)
}

/// The decision for a target, from whether it has a rule, its stored and
/// computed fingerprints, and which of its outputs exist.
pub open spec fn decision_of(has_rule: bool, stored: Option<u64>, computed: u64, present: Seq<bool>) -> Decision {
    if up_to_date(stored, computed, present) {
        Decision::Skip
    } else if has_rule {
        Decision::Run
    } else {
        Decision::Record
    }
}

/// Whether a target is up to date; `present` tells, for each output and
/// implicit output, whether it exists.
pub fn is_up_to_date(stored: Option<u64>, computed: u64, present: &Vec<bool>) -> (r: bool)
    ensures
        r == up_to_date(stored, computed, present@),
{
    match stored {
        Some(s) => {
            if s != computed {
                return false;
            }
        },
        None => {
            return false;
        },
    }
    let mut k: usize = 0;
    while k < present.len()
        invariant
            k <= present@.len(),
            forall|m: int| 0 <= m < k ==> #[trigger] present@[m],
        decreases present@.len() - k,
    {
        if !present[k] {
            return false;
        }
        k += 1;
    }
    true
}

/// The staleness decision for a target.
pub fn decide(has_rule: bool, stored: Option<u64>, computed: u64, present: &Vec<bool>) -> (r: Decision)
    ensures
        r == decision_of(has_rule, stored, computed, present@),
{
    if is_up_to_date(stored, computed, present) {
        Decision::Skip
    } else if has_rule {
        Decision::Run
    } else {
        Decision::Record
    }
}

/// A target whose command, hashed input timestamps and outputs are as they
/// were when its fingerprint was recorded is skipped: a second run over an
/// unchanged tree does no work, and reverting a changed timestamp restores this.
pub proof fn lemma_unchanged_target_skipped(
    has_rule: bool,
    command: Option<Seq<char>>,
    times: Seq<Timestamp>,
    present: Seq<bool>,
)
    requires
        all_present(present),
    ensures
        decision_of(
            has_rule,
            Some(fingerprint_of(command, times)),
            fingerprint_of(command, times),
            present,
        ) == Decision::Skip,
{
}

/// A target with a rule one of whose outputs is missing runs its command,
/// whatever the database holds.
pub proof fn lemma_missing_output_runs(
    stored: Option<u64>,
    computed: u64,
    present: Seq<bool>,
    k: int,
)
    requires
        0 <= k < present.len(),
        !present[k],
    ensures
        decision_of(true, stored, computed, present) == Decision::Run,
{
}

/// A target with a rule whose fingerprint differs from the recorded one, as
/// after a change of an explicit input's timestamp, runs its command.
pub proof fn lemma_changed_fingerprint_runs(
    command: Option<Seq<char>>,
    recorded: Seq<Timestamp>,
    now: Seq<Timestamp>,
    present: Seq<bool>,
)
    requires
        fingerprint_of(command, now) != fingerprint_of(command, recorded),
    ensures
        decision_of(
            true,
            Some(fingerprint_of(command, recorded)),
            fingerprint_of(command, now),
            present,
        ) == Decision::Run,
{
}

/// A target without a rule never runs a command: it is skipped or recorded.
pub proof fn lemma_no_rule_never_runs(stored: Option<u64>, computed: u64, present: Seq<bool>)
    ensures
        decision_of(false, stored, computed, present) != Decision::Run,
{
}

} // verus!
