//! The extraction of frames from a video, as far as it is decided here: how
//! the decoder is invoked, and what follows from the way its run ended.
//!
//! The decoder is `ffmpeg`, run as a process of its own by the caller. It
//! writes one PNG file per sampled frame into the working directory and
//! numbers them from 1, with four digits.

use vstd::prelude::*;
use vstd::string::StringExecFns;

verus! {

/// The frames that are sampled of each second of video.
pub const FRAMES_PER_SECOND: u32 = 1;

/// The name of the working directory, into which the decoder writes the
/// frames and over which the scan goes.
pub fn working_directory() -> (name: &'static str)
    ensures
        name@ == "frames"@,
{
    "frames"
}

/// The character of the decimal digit `d`.
pub open spec fn digit_char(d: nat) -> char
    recommends
        d < 10,
{
    (0x30 + d) as char
}

/// `n` in decimal notation, without leading zeros.
pub open spec fn decimal_digits(n: nat) -> Seq<char>
    decreases n,
{
    if n < 10 {
        seq![digit_char(n)]
    } else {
        decimal_digits(n / 10).push(digit_char(n % 10))
    }
}

/// The arguments with which the decoder samples `fps` frames per second of
/// `input_file` into `output_dir`: the input, the filter that sets the rate,
/// and the pattern of the names of the files it writes.
pub open spec fn decoder_arguments(input_file: Seq<char>, output_dir: Seq<char>, fps: nat) -> Seq<
    Seq<char>,
> {
    seq![
        "-i"@,
        input_file,
        "-vf"@,
        "fps="@ + decimal_digits(fps),
        output_dir + "/frame_%04d.png"@,
    ]
}

/// A command line: the program to run and its arguments.
#[derive(Debug)]
pub struct DecoderCommand {
    pub program: String,
    pub arguments: Vec<String>,
}

impl DecoderCommand {
    /// The arguments as sequences of characters.
    pub open spec fn argument_texts(self) -> Seq<Seq<char>> {
        self.arguments@.map_values(|argument: String| argument@)
    }
}

fn digit_text(d: u32) -> (text: &'static str)
    requires
        d < 10,
    ensures
        text@ == seq![digit_char(d as nat)],
{
    proof {
        reveal_strlit("0");
        reveal_strlit("1");
        reveal_strlit("2");
        reveal_strlit("3");
        reveal_strlit("4");
        reveal_strlit("5");
        reveal_strlit("6");
        reveal_strlit("7");
        reveal_strlit("8");
        reveal_strlit("9");
    }
    let text: &'static str = match d {
        0 => "0",
        1 => "1",
        2 => "2",
        3 => "3",
        4 => "4",
        5 => "5",
        6 => "6",
        7 => "7",
        8 => "8",
        _ => "9",
    };
    assert(text@ =~= seq![digit_char(d as nat)]);
    text
}

/// `n` in decimal notation.
pub fn decimal_text(n: u32) -> (text: String)
    ensures
        text@ == decimal_digits(n as nat),
    decreases n,
{
    if n < 10 {
        String::from_str(digit_text(n))
    } else {
        let mut text: String = decimal_text(n / 10);
        text.append(digit_text(n % 10));
        text
    }
}

/// The command that extracts the frames of `input_file` into `output_dir`,
/// `fps` of them per second of video.
pub fn extraction_command(input_file: &str, output_dir: &str, fps: u32) -> (command: DecoderCommand)
    ensures
        command.program@ == "ffmpeg"@,
        command.arguments@.len() == 5,
        command.argument_texts() == decoder_arguments(input_file@, output_dir@, fps as nat),
{
    let mut rate: String = String::from_str("fps=");
    rate.append(decimal_text(fps).as_str());
    let mut pattern: String = String::from_str(output_dir);
    pattern.append("/frame_%04d.png");
    let mut arguments: Vec<String> = Vec::new();
    arguments.push(String::from_str("-i"));
    arguments.push(String::from_str(input_file));
    arguments.push(String::from_str("-vf"));
    arguments.push(rate);
    arguments.push(pattern);
    let command = DecoderCommand { program: String::from_str("ffmpeg"), arguments };
    assert(command.argument_texts() =~= decoder_arguments(input_file@, output_dir@, fps as nat));
    command
}

/// How the run of the decoder ended.
#[derive(Clone, Copy, Debug, PartialEq, Eq, Structural)]
pub enum DecoderRun {
    /// The process could not be started.
    NotStarted,
    /// The process ran and reported a failure.
    Failed,
    /// The process ran and reported success.
    Succeeded,
}

/// What follows the extraction.
#[derive(Clone, Copy, Debug, PartialEq, Eq, Structural)]
pub enum NextStep {
    /// Give up: there is nothing to scan.
    Abort,
    /// Say that the decoder failed, then scan whatever it has written.
    WarnAndScan,
    /// Scan the frames.
    Scan,
}

/// What follows from the way the decoder's run ended. Only a decoder that
/// could not be started ends the work; one that ran and failed is reported,
/// and the scan goes over what is there.
pub fn after_extraction(run: DecoderRun) -> (next: NextStep)
    ensures
        next == match run {
            DecoderRun::NotStarted => NextStep::Abort,
            DecoderRun::Failed => NextStep::WarnAndScan,
            DecoderRun::Succeeded => NextStep::Scan,
        },
{
    match run {
        DecoderRun::NotStarted => NextStep::Abort,
        DecoderRun::Failed => NextStep::WarnAndScan,
        DecoderRun::Succeeded => NextStep::Scan,
    }
}

} // verus!
