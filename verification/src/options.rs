//! Command-line selection of what the daemon runs.
use crate::paths::{candidate_path, is_candidate_path, views};
use crate::text::{bytes_eq, utf8_text};
use vstd::prelude::*;
use vstd::string::*;
use vstd::utf8::*;

verus! {

#[derive(Clone, Copy, Debug, PartialEq, Eq, Structural)]
pub enum RunMode {
    Serve,
    PrewarmOnly,
    StorageReadinessOnly,
    ValidateFfmpegAccount,
}

/// A run that the command line asks for. The path is kept as its bytes.
#[derive(Debug, PartialEq, Eq)]
pub struct RunOptions {
    pub mode: RunMode,
    pub config_path: Option<Vec<u8>>,
    pub verify_records: bool,
}

#[derive(Debug, PartialEq, Eq)]
pub enum RunRequest {
    Run(RunOptions),
    Help,
}

#[derive(Clone, Copy, Debug, PartialEq, Eq, Structural)]
pub enum OptionsError {
    DuplicateVerifyRecords,
    MissingCandidate,
    InvalidCandidate,
    DuplicateConfig,
    MultipleModes,
    DuplicateHelp,
    UnknownArgument,
    NonUtf8Argument,
    HelpWithRunArgument,
    UnpairedReadinessFlags,
    FlagsWithoutReadiness,
}

impl OptionsError {
    pub open spec fn text(self) -> Seq<char> {
        match self {
            OptionsError::DuplicateVerifyRecords => "--verify-records may be specified only once"@,
            OptionsError::MissingCandidate => "--config requires an absolute candidate path"@,
            OptionsError::InvalidCandidate =>
                "--config requires a canonical absolute candidate path"@,
            OptionsError::DuplicateConfig => "--config may be specified only once"@,
            OptionsError::MultipleModes => "only one daemon run mode may be selected"@,
            OptionsError::DuplicateHelp => "--help may be specified only once"@,
            OptionsError::UnknownArgument => "unknown daemon argument"@,
            OptionsError::NonUtf8Argument => "howyd does not support non-UTF-8 arguments"@,
            OptionsError::HelpWithRunArgument =>
                "--help cannot be combined with a daemon run mode"@,
            OptionsError::UnpairedReadinessFlags =>
                "strong readiness requires --config and --verify-records together"@,
            OptionsError::FlagsWithoutReadiness =>
                "--config and --verify-records require --storage-readiness-only"@,
        }
    }

    pub fn message(self) -> (message: &'static str)
        ensures
            message@ == self.text(),
    {
        match self {
            OptionsError::DuplicateVerifyRecords => "--verify-records may be specified only once",
            OptionsError::MissingCandidate => "--config requires an absolute candidate path",
            OptionsError::InvalidCandidate =>
                "--config requires a canonical absolute candidate path",
            OptionsError::DuplicateConfig => "--config may be specified only once",
            OptionsError::MultipleModes => "only one daemon run mode may be selected",
            OptionsError::DuplicateHelp => "--help may be specified only once",
            OptionsError::UnknownArgument => "unknown daemon argument",
            OptionsError::NonUtf8Argument => "howyd does not support non-UTF-8 arguments",
            OptionsError::HelpWithRunArgument => "--help cannot be combined with a daemon run mode",
            OptionsError::UnpairedReadinessFlags =>
                "strong readiness requires --config and --verify-records together",
            OptionsError::FlagsWithoutReadiness =>
                "--config and --verify-records require --storage-readiness-only",
        }
    }
}

/// What one word of the command line is.
#[derive(Clone, Copy, Debug, PartialEq, Eq, Structural)]
pub enum Word {
    Mode(RunMode),
    VerifyRecords,
    Config,
    Help,
    Other,
    NonUtf8,
}

pub open spec fn word_of(bytes: Seq<u8>) -> Word {
    if bytes == encode_utf8("--prewarm-only"@) {
        Word::Mode(RunMode::PrewarmOnly)
    } else if bytes == encode_utf8("--storage-readiness-only"@) {
        Word::Mode(RunMode::StorageReadinessOnly)
    } else if bytes == encode_utf8("--validate-ffmpeg-account"@) {
        Word::Mode(RunMode::ValidateFfmpegAccount)
    } else if bytes == encode_utf8("--verify-records"@) {
        Word::VerifyRecords
    } else if bytes == encode_utf8("--config"@) {
        Word::Config
    } else if bytes == encode_utf8("-h"@) || bytes == encode_utf8("--help"@) {
        Word::Help
    } else if valid_utf8(bytes) {
        Word::Other
    } else {
        Word::NonUtf8
    }
}

fn classify(bytes: &[u8]) -> (word: Word)
    ensures
        word == word_of(bytes@),
{
    if bytes_eq(bytes, "--prewarm-only".as_bytes()) {
        Word::Mode(RunMode::PrewarmOnly)
    } else if bytes_eq(bytes, "--storage-readiness-only".as_bytes()) {
        Word::Mode(RunMode::StorageReadinessOnly)
    } else if bytes_eq(bytes, "--validate-ffmpeg-account".as_bytes()) {
        Word::Mode(RunMode::ValidateFfmpegAccount)
    } else if bytes_eq(bytes, "--verify-records".as_bytes()) {
        Word::VerifyRecords
    } else if bytes_eq(bytes, "--config".as_bytes()) {
        Word::Config
    } else if bytes_eq(bytes, "-h".as_bytes()) || bytes_eq(bytes, "--help".as_bytes()) {
        Word::Help
    } else if utf8_text(bytes).is_some() {
        Word::Other
    } else {
        Word::NonUtf8
    }
}

/// What the words read so far have set.
pub struct Seen {
    pub mode: RunMode,
    pub config: Option<Seq<u8>>,
    pub verify_records: bool,
    pub help: bool,
    pub run_argument: bool,
}

pub open spec fn nothing_seen() -> Seen {
    Seen {
        mode: RunMode::Serve,
        config: None,
        verify_records: false,
        help: false,
        run_argument: false,
    }
}

/// Reads the words from `at` on. Each mode, flag and option may come once, and
/// at most one mode may be chosen; `--config` takes the next word as its value.
pub open spec fn scan(
    words: Seq<Seq<u8>>,
    at: int,
    seen: Seen,
    max_path_bytes: usize,
) -> Result<Seen, OptionsError>
    decreases words.len() - at,
{
    if at >= words.len() || at < 0 {
        Ok(seen)
    } else {
        match word_of(words[at]) {
            Word::Mode(mode) => if seen.mode != RunMode::Serve {
                Err(OptionsError::MultipleModes)
            } else {
                scan(words, at + 1, Seen { mode, run_argument: true, ..seen }, max_path_bytes)
            },
            Word::VerifyRecords => if seen.verify_records {
                Err(OptionsError::DuplicateVerifyRecords)
            } else {
                scan(
                    words,
                    at + 1,
                    Seen { verify_records: true, run_argument: true, ..seen },
                    max_path_bytes,
                )
            },
            Word::Config => if seen.config is Some {
                Err(OptionsError::DuplicateConfig)
            } else if at + 1 >= words.len() {
                Err(OptionsError::MissingCandidate)
            } else if !candidate_path(words[at + 1], max_path_bytes) {
                Err(OptionsError::InvalidCandidate)
            } else {
                scan(
                    words,
                    at + 2,
                    Seen { config: Some(words[at + 1]), run_argument: true, ..seen },
                    max_path_bytes,
                )
            },
            Word::Help => if seen.help {
                Err(OptionsError::DuplicateHelp)
            } else {
                scan(words, at + 1, Seen { help: true, ..seen }, max_path_bytes)
            },
            Word::Other => Err(OptionsError::UnknownArgument),
            Word::NonUtf8 => Err(OptionsError::NonUtf8Argument),
        }
    }
}

/// What the words as a whole ask for: `None` is the usage text.
pub open spec fn selected(seen: Seen) -> Result<Option<Seen>, OptionsError> {
    let readiness = seen.mode == RunMode::StorageReadinessOnly;
    if seen.help {
        if seen.run_argument {
            Err(OptionsError::HelpWithRunArgument)
        } else {
            Ok(None)
        }
    } else if readiness && (seen.config is Some) != seen.verify_records {
        Err(OptionsError::UnpairedReadinessFlags)
    } else if !readiness && (seen.config is Some || seen.verify_records) {
        Err(OptionsError::FlagsWithoutReadiness)
    } else {
        Ok(Some(seen))
    }
}

/// The request that a command line, program name first, makes.
pub open spec fn request(words: Seq<Seq<u8>>, max_path_bytes: usize) -> Result<
    Option<Seen>,
    OptionsError,
> {
    match scan(words, 1, nothing_seen(), max_path_bytes) {
        Ok(seen) => selected(seen),
        Err(error) => Err(error),
    }
}

/// `parsed` is the executable form of `wanted`.
pub open spec fn request_is(
    parsed: Result<RunRequest, OptionsError>,
    wanted: Result<Option<Seen>, OptionsError>,
) -> bool {
    match wanted {
        Err(error) => parsed == Err::<RunRequest, OptionsError>(error),
        Ok(None) => parsed matches Ok(RunRequest::Help),
        Ok(Some(seen)) => parsed matches Ok(RunRequest::Run(options)) && options.mode == seen.mode
            && options.verify_records == seen.verify_records && (match options.config_path {
            Some(path) => seen.config == Some(path@),
            None => seen.config is None,
        }),
    }
}

/// Parses the words of the command line, program name first.
pub fn parse_run_options_from(arguments: &Vec<Vec<u8>>, max_path_bytes: usize) -> (parsed: Result<
    RunRequest,
    OptionsError,
>)
    ensures
        request_is(parsed, request(views(arguments@), max_path_bytes)),
{
    let ghost words = views(arguments@);
    let mut mode = RunMode::Serve;
    let mut config: Option<Vec<u8>> = None;
    let mut verify_records = false;
    let mut help = false;
    let mut run_argument = false;
    let mut at: usize = 1;
    while at < arguments.len()
        invariant
            words == views(arguments@),
            1 <= at,
            scan(words, 1, nothing_seen(), max_path_bytes) == scan(
                words,
                at as int,
                Seen {
                    mode,
                    config: match config {
                        Some(path) => Some(path@),
                        None => None,
                    },
                    verify_records,
                    help,
                    run_argument,
                },
                max_path_bytes,
            ),
        decreases arguments.len() - at,
    {
        assert(words[at as int] == arguments@[at as int]@);
        match classify(arguments[at].as_slice()) {
            Word::Mode(chosen) => {
                if mode != RunMode::Serve {
                    return Err(OptionsError::MultipleModes);
                }
                mode = chosen;
                run_argument = true;
            },
            Word::VerifyRecords => {
                if verify_records {
                    return Err(OptionsError::DuplicateVerifyRecords);
                }
                verify_records = true;
                run_argument = true;
            },
            Word::Config => {
                if config.is_some() {
                    return Err(OptionsError::DuplicateConfig);
                }
                if at + 1 >= arguments.len() {
                    return Err(OptionsError::MissingCandidate);
                }
                at = at + 1;
                assert(words[at as int] == arguments@[at as int]@);
                let candidate = arguments[at].as_slice();
                if !is_candidate_path(candidate, max_path_bytes) {
                    return Err(OptionsError::InvalidCandidate);
                }
                let copy = vstd::slice::slice_to_vec(candidate);
                assert(copy@ =~= candidate@);
                config = Some(copy);
                run_argument = true;
            },
            Word::Help => {
                if help {
                    return Err(OptionsError::DuplicateHelp);
                }
                help = true;
            },
            Word::Other => {
                return Err(OptionsError::UnknownArgument);
            },
            Word::NonUtf8 => {
                return Err(OptionsError::NonUtf8Argument);
            },
        }
        at = at + 1;
    }
    if help {
        if run_argument {
            return Err(OptionsError::HelpWithRunArgument);
        }
        return Ok(RunRequest::Help);
    }
    let readiness = mode == RunMode::StorageReadinessOnly;
    if readiness && config.is_some() != verify_records {
        return Err(OptionsError::UnpairedReadinessFlags);
    }
    if !readiness && (config.is_some() || verify_records) {
        return Err(OptionsError::FlagsWithoutReadiness);
    }
    Ok(RunRequest::Run(RunOptions { mode, config_path: config, verify_records }))
}

proof fn scanned_candidate_is_valid(
    words: Seq<Seq<u8>>,
    at: int,
    seen: Seen,
    max_path_bytes: usize,
)
    requires
        seen.config matches Some(path) ==> candidate_path(path, max_path_bytes),
    ensures
        scan(words, at, seen, max_path_bytes) matches Ok(last) ==> (last.config matches Some(path)
            ==> candidate_path(path, max_path_bytes)),
    decreases words.len() - at,
{
    if 0 <= at < words.len() {
        match word_of(words[at]) {
            Word::Mode(mode) => {
                scanned_candidate_is_valid(
                    words,
                    at + 1,
                    Seen { mode, run_argument: true, ..seen },
                    max_path_bytes,
                );
            },
            Word::VerifyRecords => {
                scanned_candidate_is_valid(
                    words,
                    at + 1,
                    Seen { verify_records: true, run_argument: true, ..seen },
                    max_path_bytes,
                );
            },
            Word::Config => {
                if at + 1 < words.len() && candidate_path(words[at + 1], max_path_bytes) {
                    scanned_candidate_is_valid(
                        words,
                        at + 2,
                        Seen { config: Some(words[at + 1]), run_argument: true, ..seen },
                        max_path_bytes,
                    );
                }
            },
            Word::Help => {
                scanned_candidate_is_valid(
                    words,
                    at + 1,
                    Seen { help: true, ..seen },
                    max_path_bytes,
                );
            },
            _ => {},
        }
    }
}

/// Record verification and a configuration candidate come together, only in
/// the readiness mode, and the candidate's path has the required form.
pub proof fn strong_readiness_is_paired(words: Seq<Seq<u8>>, max_path_bytes: usize)
    ensures
        request(words, max_path_bytes) matches Ok(Some(seen)) ==> {
            &&& seen.verify_records <==> seen.config is Some
            &&& seen.verify_records ==> seen.mode == RunMode::StorageReadinessOnly
            &&& seen.config matches Some(path) ==> candidate_path(path, max_path_bytes)
        },
{
    scanned_candidate_is_valid(words, 1, nothing_seen(), max_path_bytes);
}


proof fn flags_differ()
    ensures
        word_of(encode_utf8("--prewarm-only"@)) == Word::Mode(RunMode::PrewarmOnly),
        word_of(encode_utf8("--storage-readiness-only"@)) == Word::Mode(
            RunMode::StorageReadinessOnly,
        ),
        word_of(encode_utf8("--validate-ffmpeg-account"@)) == Word::Mode(
            RunMode::ValidateFfmpegAccount,
        ),
        word_of(encode_utf8("--verify-records"@)) == Word::VerifyRecords,
        word_of(encode_utf8("--config"@)) == Word::Config,
        word_of(encode_utf8("-h"@)) == Word::Help,
        word_of(encode_utf8("--help"@)) == Word::Help,
        encode_utf8("--prewarm-only"@)[0] == 45 && encode_utf8("--storage-readiness-only"@)[0] == 45,
        encode_utf8("--validate-ffmpeg-account"@)[0] == 45 && encode_utf8("--verify-records"@)[0]
            == 45,
        encode_utf8("--config"@)[0] == 45 && encode_utf8("-h"@)[0] == 45 && encode_utf8(
            "--help"@,
        )[0] == 45,
{
    reveal_strlit("--prewarm-only");
    reveal_strlit("--storage-readiness-only");
    reveal_strlit("--validate-ffmpeg-account");
    reveal_strlit("--verify-records");
    reveal_strlit("--config");
    reveal_strlit("-h");
    reveal_strlit("--help");
    is_ascii_chars_encode_utf8("--prewarm-only"@);
    is_ascii_chars_encode_utf8("--storage-readiness-only"@);
    is_ascii_chars_encode_utf8("--validate-ffmpeg-account"@);
    is_ascii_chars_encode_utf8("--verify-records"@);
    is_ascii_chars_encode_utf8("--config"@);
    is_ascii_chars_encode_utf8("-h"@);
    is_ascii_chars_encode_utf8("--help"@);
    assert(encode_utf8("--prewarm-only"@).len() == 14);
    assert(encode_utf8("--storage-readiness-only"@).len() == 24);
    assert(encode_utf8("--validate-ffmpeg-account"@).len() == 25);
    assert(encode_utf8("--verify-records"@).len() == 16);
    assert(encode_utf8("--config"@).len() == 8);
    assert(encode_utf8("-h"@).len() == 2);
    assert(encode_utf8("--help"@).len() == 6);
}

/// A word stands among the words from a place on.
pub open spec fn stands_among(words: Seq<Seq<u8>>, from: int, word: Seq<u8>) -> bool {
    exists|i: int| from <= i < words.len() && #[trigger] words[i] == word
}

proof fn scans_see_every_word(words: Seq<Seq<u8>>, at: int, seen: Seen, max_path_bytes: usize)
    requires
        0 <= at,
        scan(words, at, seen, max_path_bytes) is Ok,
    ensures
        ({
            let out = scan(words, at, seen, max_path_bytes)->Ok_0;
            &&& out.mode == RunMode::PrewarmOnly <==> seen.mode == RunMode::PrewarmOnly
                || stands_among(words, at, encode_utf8("--prewarm-only"@))
            &&& out.mode == RunMode::StorageReadinessOnly <==> seen.mode
                == RunMode::StorageReadinessOnly || stands_among(
                words,
                at,
                encode_utf8("--storage-readiness-only"@),
            )
            &&& out.mode == RunMode::ValidateFfmpegAccount <==> seen.mode
                == RunMode::ValidateFfmpegAccount || stands_among(
                words,
                at,
                encode_utf8("--validate-ffmpeg-account"@),
            )
            &&& out.verify_records <==> seen.verify_records || stands_among(
                words,
                at,
                encode_utf8("--verify-records"@),
            )
            &&& out.help <==> seen.help || stands_among(words, at, encode_utf8("-h"@))
                || stands_among(words, at, encode_utf8("--help"@))
            &&& seen.config is Some ==> out.config == seen.config
            &&& out.config is Some <==> seen.config is Some || stands_among(
                words,
                at,
                encode_utf8("--config"@),
            )
            &&& forall|i: int|
                at <= i < words.len() && #[trigger] words[i] == encode_utf8("--config"@) ==> i + 1
                    < words.len() && out.config == Some(words[i + 1])
            &&& out.run_argument <==> seen.run_argument || out.mode != seen.mode
                || out.verify_records != seen.verify_records || out.config != seen.config
        }),
    decreases words.len() - at,
{
    if at < words.len() {
        flags_differ();
        let word = words[at];
        assert forall|flag: Seq<u8>| #[trigger] stands_among(words, at, flag) <==> word == flag
            || stands_among(words, at + 1, flag) by {
            if stands_among(words, at, flag) && word != flag {
                let i = choose|i: int| at <= i < words.len() && #[trigger] words[i] == flag;
                assert(words[i] == flag && at + 1 <= i);
            }
            if word == flag {
                assert(words[at] == flag);
            }
        }
        match word_of(word) {
            Word::Mode(mode) => {
                scans_see_every_word(
                    words,
                    at + 1,
                    Seen { mode, run_argument: true, ..seen },
                    max_path_bytes,
                );
            },
            Word::VerifyRecords => {
                scans_see_every_word(
                    words,
                    at + 1,
                    Seen { verify_records: true, run_argument: true, ..seen },
                    max_path_bytes,
                );
            },
            Word::Config => {
                let path = words[at + 1];
                assert forall|flag: Seq<u8>| flag.len() > 0 && flag[0] == 45 implies (#[trigger]
                stands_among(words, at + 1, flag) <==> stands_among(words, at + 2, flag)) by {
                    if stands_among(words, at + 1, flag) {
                        let i = choose|i: int|
                            at + 1 <= i < words.len() && #[trigger] words[i] == flag;
                        assert(path[0] == 47);
                        assert(words[i] == flag && at + 2 <= i);
                    }
                }
                scans_see_every_word(
                    words,
                    at + 2,
                    Seen { config: Some(path), run_argument: true, ..seen },
                    max_path_bytes,
                );
            },
            Word::Help => {
                scans_see_every_word(
                    words,
                    at + 1,
                    Seen { help: true, ..seen },
                    max_path_bytes,
                );
            },
            _ => {},
        }
    }
}

/// A request does what its words say, wherever they stand: the mode is the one that is
/// named, and the plain service where none is; records are verified and a candidate is
/// read exactly where that is asked for, and the candidate is the word behind the flag.
/// Help is given only where nothing else is asked for.
pub proof fn requests_do_what_their_words_say(words: Seq<Seq<u8>>, max_path_bytes: usize)
    ensures
        request(words, max_path_bytes) matches Ok(Some(seen)) ==> {
            &&& seen.mode == RunMode::PrewarmOnly <==> stands_among(
                words,
                1,
                encode_utf8("--prewarm-only"@),
            )
            &&& seen.mode == RunMode::StorageReadinessOnly <==> stands_among(
                words,
                1,
                encode_utf8("--storage-readiness-only"@),
            )
            &&& seen.mode == RunMode::ValidateFfmpegAccount <==> stands_among(
                words,
                1,
                encode_utf8("--validate-ffmpeg-account"@),
            )
            &&& seen.verify_records <==> stands_among(words, 1, encode_utf8("--verify-records"@))
            &&& seen.config is Some <==> stands_among(words, 1, encode_utf8("--config"@))
            &&& forall|i: int|
                1 <= i < words.len() && #[trigger] words[i] == encode_utf8("--config"@) ==> i + 1
                    < words.len() && seen.config == Some(words[i + 1])
            &&& !stands_among(words, 1, encode_utf8("-h"@)) && !stands_among(
                words,
                1,
                encode_utf8("--help"@),
            )
        },
        request(words, max_path_bytes) matches Ok(None) ==> {
            &&& stands_among(words, 1, encode_utf8("-h"@)) || stands_among(
                words,
                1,
                encode_utf8("--help"@),
            )
            &&& !stands_among(words, 1, encode_utf8("--prewarm-only"@))
            &&& !stands_among(words, 1, encode_utf8("--storage-readiness-only"@))
            &&& !stands_among(words, 1, encode_utf8("--validate-ffmpeg-account"@))
            &&& !stands_among(words, 1, encode_utf8("--verify-records"@))
            &&& !stands_among(words, 1, encode_utf8("--config"@))
        },
        words.len() <= 1 ==> (request(words, max_path_bytes) matches Ok(Some(seen)) && seen.mode
            == RunMode::Serve),
{
    if scan(words, 1, nothing_seen(), max_path_bytes) is Ok {
        scans_see_every_word(words, 1, nothing_seen(), max_path_bytes);
    }
}

/// One word that names a mode is enough to select it.
pub proof fn one_word_selects_a_mode(program: Seq<u8>, max_path_bytes: usize)
    ensures
        request(seq![program, encode_utf8("--prewarm-only"@)], max_path_bytes) matches Ok(
            Some(seen),
        ) && seen.mode == RunMode::PrewarmOnly,
        request(seq![program, encode_utf8("--storage-readiness-only"@)], max_path_bytes) matches Ok(
            Some(seen),
        ) && seen.mode == RunMode::StorageReadinessOnly,
        request(seq![program, encode_utf8("--validate-ffmpeg-account"@)], max_path_bytes) matches Ok(
            Some(seen),
        ) && seen.mode == RunMode::ValidateFfmpegAccount,
        request(seq![program, encode_utf8("--help"@)], max_path_bytes) matches Ok(None),
        request(seq![program, encode_utf8("-h"@)], max_path_bytes) matches Ok(None),
{
    flags_differ();
    reveal_with_fuel(scan, 3);
}


/// What a request becomes: the mode, the candidate and the wish to verify records that
/// the words say, or help, or the error.
pub proof fn parsed_requests_keep_what_was_said(
    parsed: Result<RunRequest, OptionsError>,
    words: Seq<Seq<u8>>,
    max_path_bytes: usize,
)
    requires
        request_is(parsed, request(words, max_path_bytes)),
    ensures
        parsed matches Ok(RunRequest::Run(options)) ==> {
            &&& options.mode == RunMode::PrewarmOnly <==> stands_among(
                words,
                1,
                encode_utf8("--prewarm-only"@),
            )
            &&& options.mode == RunMode::StorageReadinessOnly <==> stands_among(
                words,
                1,
                encode_utf8("--storage-readiness-only"@),
            )
            &&& options.mode == RunMode::ValidateFfmpegAccount <==> stands_among(
                words,
                1,
                encode_utf8("--validate-ffmpeg-account"@),
            )
            &&& options.verify_records <==> stands_among(
                words,
                1,
                encode_utf8("--verify-records"@),
            )
            &&& options.config_path is Some <==> stands_among(words, 1, encode_utf8("--config"@))
            &&& forall|i: int|
                1 <= i < words.len() && #[trigger] words[i] == encode_utf8("--config"@) ==> (
                options.config_path matches Some(path) && path@ == words[i + 1])
        },
        parsed matches Ok(RunRequest::Help) ==> stands_among(words, 1, encode_utf8("-h"@))
            || stands_among(words, 1, encode_utf8("--help"@)),
{
    requests_do_what_their_words_say(words, max_path_bytes);
}

} // verus!
