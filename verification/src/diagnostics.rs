//! Failure reporting: bounded error text, the fixed lines of the readiness
//! verifier, and which of them a panicking verifier may still write.
use crate::text::{chars_of, string_of};
use vstd::prelude::*;
use vstd::string::*;
use vstd::utf8::*;

verus! {

pub const MAX_DAEMON_ERROR_BYTES: usize = 4096;

pub const DAEMON_ERROR_PREFIX: &'static str = "howyd: ";

/// What is left of a line for the message: the prefix and the newline take the rest.
pub const MAX_ERROR_MESSAGE_BYTES: usize = 4088;

/// `text` with every carriage return and newline replaced by a space.
pub open spec fn flattened(text: Seq<char>) -> Seq<char> {
    text.map_values(|character: char| if character == '\r' || character == '\n' { ' ' } else { character })
}

/// The last character boundary of `bytes` at or before `end`.
pub open spec fn boundary_before(bytes: Seq<u8>, end: int) -> int
    decreases end,
{
    if end <= 0 {
        0
    } else if is_char_boundary(bytes, end) {
        end
    } else {
        boundary_before(bytes, end - 1)
    }
}

/// The line that an error message becomes: flattened, and cut at a character
/// boundary with three dots behind it where it would be too long.
pub open spec fn bounded(message: Seq<char>) -> Seq<char> {
    let flat = flattened(message);
    let bytes = encode_utf8(flat);
    if bytes.len() <= MAX_ERROR_MESSAGE_BYTES {
        flat
    } else {
        decode_utf8(bytes.subrange(0, boundary_before(bytes, MAX_ERROR_MESSAGE_BYTES - 3)))
            + "..."@
    }
}

proof fn boundary_before_is_boundary(bytes: Seq<u8>, end: int)
    requires
        valid_utf8(bytes),
        0 <= end,
    ensures
        is_char_boundary(bytes, boundary_before(bytes, end)),
        0 <= boundary_before(bytes, end) <= end,
    decreases end,
{
    is_char_boundary_start_end_of_seq(bytes);
    if end > 0 && !is_char_boundary(bytes, end) {
        boundary_before_is_boundary(bytes, end - 1);
    }
}

/// Encoding a concatenation concatenates the encodings.
pub proof fn encoding_concatenates(left: Seq<char>, right: Seq<char>)
    ensures
        encode_utf8(left + right) == encode_utf8(left) + encode_utf8(right),
    decreases left.len(),
{
    if left.len() == 0 {
        assert(left + right =~= right);
        assert(encode_utf8(left) + encode_utf8(right) =~= encode_utf8(right));
    } else {
        assert((left + right).drop_first() =~= left.drop_first() + right);
        encoding_concatenates(left.drop_first(), right);
        assert(encode_utf8(left + right) =~= encode_utf8(left) + encode_utf8(right));
    }
}

/// Renders an error message as one line of bounded length.
pub fn bounded_error_message(error: &str) -> (line: String)
    ensures
        line@ == bounded(error@),
{
    let mut characters = chars_of(error);
    let mut index: usize = 0;
    while index < characters.len()
        invariant
            index <= characters.len(),
            characters.len() == error@.len(),
            forall|i: int| 0 <= i < index ==> characters@[i] == flattened(error@)[i],
            forall|i: int| index <= i < error@.len() ==> characters@[i] == error@[i],
        decreases characters.len() - index,
    {
        if characters[index] == '\r' || characters[index] == '\n' {
            characters.set(index, ' ');
        }
        index = index + 1;
    }
    assert(characters@ =~= flattened(error@));
    let message = string_of(characters.as_slice());
    let text = message.as_str();
    if text.as_bytes().len() <= MAX_ERROR_MESSAGE_BYTES {
        return message;
    }
    proof {
        encode_utf8_valid_utf8(text@);
    }
    let ghost bytes = encode_utf8(text@);
    let mut end: usize = MAX_ERROR_MESSAGE_BYTES - 3;
    while end > 0 && !text.is_char_boundary(end)
        invariant
            end <= MAX_ERROR_MESSAGE_BYTES - 3,
            bytes == encode_utf8(text@),
            boundary_before(bytes, MAX_ERROR_MESSAGE_BYTES - 3) == boundary_before(
                bytes,
                end as int,
            ),
        decreases end,
    {
        end = end - 1;
    }
    proof {
        is_char_boundary_start_end_of_seq(bytes);
        boundary_before_is_boundary(bytes, MAX_ERROR_MESSAGE_BYTES - 3);
    }
    let (head, _tail) = text.split_at(end);
    proof {
        valid_utf8_split(bytes, end as int);
        encode_utf8_decode_utf8(head@);
    }
    let mut line = head.to_owned();
    line.append("...");
    line
}

#[derive(Clone, Copy, Debug, PartialEq, Eq, Structural)]
pub enum StrongReadinessFailure {
    Deadline,
    Identity,
    Config,
    Credential,
    Verification,
    Output,
}

impl StrongReadinessFailure {
    pub open spec fn text(self) -> Seq<char> {
        match self {
            StrongReadinessFailure::Deadline =>
                "strong-readiness/deadline: operation deadline exceeded"@,
            StrongReadinessFailure::Identity =>
                "strong-readiness/identity: verifier identity rejected"@,
            StrongReadinessFailure::Config =>
                "strong-readiness/config: candidate configuration rejected"@,
            StrongReadinessFailure::Credential =>
                "strong-readiness/credential: credential delivery rejected"@,
            StrongReadinessFailure::Verification =>
                "strong-readiness/verification: namespace verification failed"@,
            StrongReadinessFailure::Output =>
                "strong-readiness/output: atomic verifier output failed"@,
        }
    }

    pub fn stable_message(self) -> (message: &'static str)
        ensures
            message@ == self.text(),
    {
        match self {
            StrongReadinessFailure::Deadline =>
                "strong-readiness/deadline: operation deadline exceeded",
            StrongReadinessFailure::Identity =>
                "strong-readiness/identity: verifier identity rejected",
            StrongReadinessFailure::Config =>
                "strong-readiness/config: candidate configuration rejected",
            StrongReadinessFailure::Credential =>
                "strong-readiness/credential: credential delivery rejected",
            StrongReadinessFailure::Verification =>
                "strong-readiness/verification: namespace verification failed",
            StrongReadinessFailure::Output =>
                "strong-readiness/output: atomic verifier output failed",
        }
    }

    /// The whole line, prefix and newline included, without any allocation.
    pub fn stable_line(self) -> (line: &'static [u8])
        ensures
            line@ == encode_utf8("howyd: "@ + self.text() + "\n"@),
    {
        proof {
            reveal_strlit("howyd: ");
            reveal_strlit("\n");
        }
        match self {
            StrongReadinessFailure::Deadline => {
                let line = "howyd: strong-readiness/deadline: operation deadline exceeded\n";
                proof {
                    reveal_strlit("howyd: strong-readiness/deadline: operation deadline exceeded\n");
                    reveal_strlit("strong-readiness/deadline: operation deadline exceeded");
                    assert(line@ =~= "howyd: "@ + self.text() + "\n"@);
                }
                line.as_bytes()
            },
            StrongReadinessFailure::Identity => {
                let line = "howyd: strong-readiness/identity: verifier identity rejected\n";
                proof {
                    reveal_strlit("howyd: strong-readiness/identity: verifier identity rejected\n");
                    reveal_strlit("strong-readiness/identity: verifier identity rejected");
                    assert(line@ =~= "howyd: "@ + self.text() + "\n"@);
                }
                line.as_bytes()
            },
            StrongReadinessFailure::Config => {
                let line = "howyd: strong-readiness/config: candidate configuration rejected\n";
                proof {
                    reveal_strlit("howyd: strong-readiness/config: candidate configuration rejected\n");
                    reveal_strlit("strong-readiness/config: candidate configuration rejected");
                    assert(line@ =~= "howyd: "@ + self.text() + "\n"@);
                }
                line.as_bytes()
            },
            StrongReadinessFailure::Credential => {
                let line = "howyd: strong-readiness/credential: credential delivery rejected\n";
                proof {
                    reveal_strlit("howyd: strong-readiness/credential: credential delivery rejected\n");
                    reveal_strlit("strong-readiness/credential: credential delivery rejected");
                    assert(line@ =~= "howyd: "@ + self.text() + "\n"@);
                }
                line.as_bytes()
            },
            StrongReadinessFailure::Verification => {
                let line = "howyd: strong-readiness/verification: namespace verification failed\n";
                proof {
                    reveal_strlit("howyd: strong-readiness/verification: namespace verification failed\n");
                    reveal_strlit("strong-readiness/verification: namespace verification failed");
                    assert(line@ =~= "howyd: "@ + self.text() + "\n"@);
                }
                line.as_bytes()
            },
            StrongReadinessFailure::Output => {
                let line = "howyd: strong-readiness/output: atomic verifier output failed\n";
                proof {
                    reveal_strlit("howyd: strong-readiness/output: atomic verifier output failed\n");
                    reveal_strlit("strong-readiness/output: atomic verifier output failed");
                    assert(line@ =~= "howyd: "@ + self.text() + "\n"@);
                }
                line.as_bytes()
            },
        }
    }
}

/// What this thread's verifier may still report.
#[derive(Clone, Copy, Debug, PartialEq, Eq, Structural)]
pub enum PanicMode {
    Inactive,
    Armed,
    Reported,
}

/// What a panic hook does with a panic.
#[derive(Clone, Copy, Debug, PartialEq, Eq, Structural)]
pub enum PanicReaction {
    /// Write the fixed verifier line.
    Report,
    /// The verifier has reported already.
    Silent,
    /// No verifier runs here: leave the panic to the hook that was installed before.
    Delegate,
}

/// The line that a contained verifier panic is reported with.
pub fn verifier_panic_line() -> (line: &'static [u8])
    ensures
        line@ == encode_utf8("howyd: strong-readiness/panic: verifier panic contained\n"@),
{
    "howyd: strong-readiness/panic: verifier panic contained\n".as_bytes()
}

/// The line for a verifier that could not be armed.
pub fn verifier_state_line() -> (line: &'static [u8])
    ensures
        line@ == encode_utf8("howyd: strong-readiness/panic: verifier state unavailable\n"@),
{
    "howyd: strong-readiness/panic: verifier state unavailable\n".as_bytes()
}

/// The mode after something that would report has happened.
pub open spec fn claimed(mode: PanicMode) -> PanicMode {
    if mode == PanicMode::Armed {
        PanicMode::Reported
    } else {
        mode
    }
}

/// What the hook does with a panic in the current mode.
pub fn react_to_panic(mode: &mut PanicMode) -> (reaction: PanicReaction)
    ensures
        *final(mode) == claimed(*old(mode)),
        reaction == (match *old(mode) {
            PanicMode::Inactive => PanicReaction::Delegate,
            PanicMode::Armed => PanicReaction::Report,
            PanicMode::Reported => PanicReaction::Silent,
        }),
{
    match *mode {
        PanicMode::Inactive => PanicReaction::Delegate,
        PanicMode::Armed => {
            *mode = PanicMode::Reported;
            PanicReaction::Report
        },
        PanicMode::Reported => PanicReaction::Silent,
    }
}

/// Claims the verifier's one report for `failure`; the line to write, if any.
pub fn report_strong_failure(mode: &mut PanicMode, failure: StrongReadinessFailure) -> (line: Option<
    &'static [u8],
>)
    ensures
        *final(mode) == claimed(*old(mode)),
        line is Some <==> *old(mode) == PanicMode::Armed,
        line matches Some(bytes) ==> bytes@ == encode_utf8("howyd: "@ + failure.text() + "\n"@),
{
    if *mode == PanicMode::Armed {
        *mode = PanicMode::Reported;
        Some(failure.stable_line())
    } else {
        None
    }
}

/// Proof that this thread's verifier is armed.
#[derive(Debug, PartialEq, Eq)]
pub struct VerifierPanicModeGuard;

impl VerifierPanicModeGuard {
    /// Arms the verifier, unless one is at work already.
    pub fn arm(mode: &mut PanicMode) -> (guard: Option<Self>)
        ensures
            guard is Some <==> *old(mode) == PanicMode::Inactive,
            *final(mode) == (if *old(mode) == PanicMode::Inactive {
                PanicMode::Armed
            } else {
                *old(mode)
            }),
    {
        if *mode != PanicMode::Inactive {
            return None;
        }
        *mode = PanicMode::Armed;
        Some(VerifierPanicModeGuard)
    }

    /// Ends the verifier's turn.
    pub fn release(self, mode: &mut PanicMode)
        ensures
            *final(mode) == PanicMode::Inactive,
    {
        *mode = PanicMode::Inactive;
    }
}

/// How many lines `attempts` attempts to report write from `mode` on.
pub open spec fn reports(mode: PanicMode, attempts: nat) -> nat
    decreases attempts,
{
    if attempts == 0 {
        0
    } else {
        (if mode == PanicMode::Armed {
            1nat
        } else {
            0nat
        }) + reports(claimed(mode), (attempts - 1) as nat)
    }
}

/// However often a verifier fails or panics while armed, one line is written.
pub proof fn one_report_per_verifier(mode: PanicMode, attempts: nat)
    ensures
        reports(mode, attempts) <= 1,
        mode == PanicMode::Armed && attempts > 0 ==> reports(mode, attempts) == 1,
        mode != PanicMode::Armed ==> reports(mode, attempts) == 0,
    decreases attempts,
{
    if attempts > 0 {
        one_report_per_verifier(claimed(mode), (attempts - 1) as nat);
    }
}

/// An error line is one line of at most the allowed length.
pub proof fn error_line_is_single_and_bounded(message: Seq<char>)
    ensures
        forall|i: int|
            0 <= i < bounded(message).len() ==> #[trigger] bounded(message)[i] != '\r' && bounded(
                message,
            )[i] != '\n',
        encode_utf8("howyd: "@ + bounded(message) + "\n"@).len() <= MAX_DAEMON_ERROR_BYTES,
{
    let flat = flattened(message);
    let bytes = encode_utf8(flat);
    let line = bounded(message);
    reveal_strlit("howyd: ");
    reveal_strlit("\n");
    reveal_strlit("...");
    is_ascii_chars_encode_utf8("howyd: "@);
    is_ascii_chars_encode_utf8("\n"@);
    is_ascii_chars_encode_utf8("..."@);
    encoding_concatenates("howyd: "@ + line, "\n"@);
    encoding_concatenates("howyd: "@, line);
    encode_utf8_valid_utf8(flat);
    encode_utf8_decode_utf8(flat);
    if bytes.len() > MAX_ERROR_MESSAGE_BYTES {
        let end = boundary_before(bytes, MAX_ERROR_MESSAGE_BYTES - 3);
        boundary_before_is_boundary(bytes, MAX_ERROR_MESSAGE_BYTES - 3);
        let head = bytes.subrange(0, end);
        valid_utf8_split(bytes, end);
        decode_utf8_split(bytes, end);
        decode_utf8_encode_utf8(head);
        encoding_concatenates(decode_utf8(head), "..."@);
        assert forall|i: int| 0 <= i < line.len() implies #[trigger] line[i] != '\r' && line[i]
            != '\n' by {
            if i < decode_utf8(head).len() {
                assert(line[i] == flat[i]);
            }
        }
    }
}


proof fn whole_characters_end_at_boundaries(left: Seq<char>, right: Seq<char>)
    ensures
        is_char_boundary(encode_utf8(left + right), encode_utf8(left).len() as int),
    decreases left.len(),
{
    let all = left + right;
    let bytes = encode_utf8(all);
    encode_utf8_valid_utf8(all);
    encoding_concatenates(left, right);
    if left.len() > 0 {
        let rest = left.drop_first();
        assert(all.drop_first() =~= rest + right);
        encode_utf8_first_scalar(all);
        whole_characters_end_at_boundaries(rest, right);
        assert(pop_first_scalar(bytes) =~= encode_utf8(rest + right));
        assert(encode_utf8(left).len() == encode_scalar(left[0] as u32).len() + encode_utf8(
            rest,
        ).len());
    }
}

proof fn no_boundary_lies_between(bytes: Seq<u8>, end: int, at: int)
    requires
        boundary_before(bytes, end) < at <= end,
    ensures
        !is_char_boundary(bytes, at),
    decreases end,
{
    if !is_char_boundary(bytes, end) && at < end {
        no_boundary_lies_between(bytes, end - 1, at);
    }
}

/// How an error is told: on one line, each break a space; whole where it has at most 4088
/// bytes, and else as many of its first characters as fit into 4085, and three dots.
pub proof fn errors_are_told_as_far_as_they_fit(message: Seq<char>) -> (kept: int)
    ensures
        0 <= kept <= message.len(),
        forall|i: int|
            0 <= i < kept ==> #[trigger] bounded(message)[i] == (if message[i] == '\r' || message[i]
                == '\n' {
                ' '
            } else {
                message[i]
            }),
        encode_utf8(flattened(message)).len() <= 4088 ==> kept == message.len() && bounded(
            message,
        ).len() == kept,
        encode_utf8(flattened(message)).len() > 4088 ==> {
            &&& bounded(message) == flattened(message).take(kept) + "..."@
            &&& encode_utf8(flattened(message).take(kept)).len() <= 4085
            &&& encode_utf8(flattened(message).take(kept + 1)).len() > 4085
        },
{
    let flat = flattened(message);
    let bytes = encode_utf8(flat);
    if bytes.len() <= 4088 {
        message.len() as int
    } else {
        let end = boundary_before(bytes, 4085);
        encode_utf8_valid_utf8(flat);
        encode_utf8_decode_utf8(flat);
        boundary_before_is_boundary(bytes, 4085);
        let head = bytes.subrange(0, end);
        valid_utf8_split(bytes, end);
        decode_utf8_split(bytes, end);
        decode_utf8_encode_utf8(head);
        let kept = decode_utf8(head).len() as int;
        assert(flat.take(kept) =~= decode_utf8(head));
        if kept == flat.len() {
            assert(flat.take(kept) =~= flat);
        }
        let more = flat.take(kept + 1);
        let rest = flat.skip(kept + 1);
        assert(more + rest =~= flat);
        whole_characters_end_at_boundaries(more, rest);
        let one = seq![flat[kept]];
        assert(more =~= flat.take(kept) + one);
        encoding_concatenates(flat.take(kept), one);
        encode_utf8_first_scalar(one);
        assert(encode_utf8(one).len() > 0);
        if encode_utf8(more).len() <= 4085 {
            no_boundary_lies_between(bytes, 4085, encode_utf8(more).len() as int);
        }
        kept
    }
}

} // verus!
