use vstd::prelude::*;

verus! {

/// The status that a finished run reports.
pub const COMPLETED: &'static str = "completed";

/// What to do after reading the status of a remote run.
#[derive(Debug, Clone, Copy, PartialEq, Eq)]
pub enum PollAction {
    /// The run is complete: read its messages.
    Finish,
    /// Wait, then read the status again.
    Wait,
    /// The run took too long: give up with an error.
    TimedOut,
}

/// The decision after the status read number `attempts + 1` of a run,
/// `max_attempts` being the most reads allowed.
pub fn poll_decision(status: &String, attempts: u64, max_attempts: u64) -> (r: PollAction)
    ensures
        r == (if status@ == COMPLETED@ {
            PollAction::Finish
        } else if attempts as int + 1 >= max_attempts as int {
            PollAction::TimedOut
        } else {
            PollAction::Wait
        }),
{
    let done = COMPLETED.to_owned();
    if *status == done {
        PollAction::Finish
    } else if attempts >= max_attempts || max_attempts - attempts <= 1 {
        PollAction::TimedOut
    } else {
        PollAction::Wait
    }
}

/// The answer of a run: the text segments of all listed messages, joined in
/// listing order.
pub fn concat_texts(texts: &Vec<String>) -> (r: String)
    ensures
        r@ == texts@.map_values(|t: String| t@).flatten(),
{
    let ghost parts = texts@.map_values(|t: String| t@);
    let mut out = String::new();
    let mut i: usize = 0;
    assert(parts.take(0) =~= Seq::<Seq<char>>::empty());
    while i < texts.len()
        invariant
            parts == texts@.map_values(|t: String| t@),
            i <= texts.len(),
            out@ == parts.take(i as int).flatten(),
        decreases texts.len() - i,
    {
        out.append(texts[i].as_str());
        proof {
            assert(parts.take(i as int + 1) =~= parts.take(i as int).push(parts[i as int]));
            parts.take(i as int).lemma_flatten_push(parts[i as int]);
        }
        i = i + 1;
    }
    assert(parts.take(texts.len() as int) =~= parts);
    out
}

} // verus!
