//! The options of a run, read from the words of a command line.

use vstd::prelude::*;

verus! {

/// An option that is followed by a value.
#[derive(Clone, Copy, Debug, PartialEq, Eq)]
pub enum Flag {
    Radius,
    Sigma,
    Threads,
}

/// Why a command line gives no options.
#[derive(Clone, Copy, Debug, PartialEq, Eq)]
pub enum OptsError {
    /// It has more than nine words.
    TooManyArguments,
    /// An option is its last word, with no value behind it.
    MissingValue(Flag),
    /// The value of an option is not a number that the option can take. The
    /// radius takes a whole number up to 255, the number of workers one that
    /// the machine can count to. The standard deviation is not judged when
    /// the words are read: whoever turns its text into a number reports it
    /// this way.
    InvalidValue(Flag),
    /// It asks for the help text.
    HelpRequested,
    /// It names no image to blur.
    MissingOriginal,
}

/// The words that tell a user of an error.
pub open spec fn message_of(error: OptsError) -> Seq<char> {
    match error {
        OptsError::TooManyArguments => "Too many arguments"@,
        OptsError::MissingValue(Flag::Radius) => "Expected a value after --radius|-r"@,
        OptsError::MissingValue(Flag::Sigma) => "Expected a value after --sigma|-s"@,
        OptsError::MissingValue(Flag::Threads) => "Expected a value after --threads|-t"@,
        OptsError::InvalidValue(Flag::Radius) => "Expected a number after --radius|-r"@,
        OptsError::InvalidValue(Flag::Sigma) => "Expected a float after --sigma|-s"@,
        OptsError::InvalidValue(Flag::Threads) => "Expected a number after --threads|-t"@,
        OptsError::HelpRequested => "Help requested"@,
        OptsError::MissingOriginal => "Expected an original image"@,
    }
}

impl OptsError {
    /// The words that tell a user of this error.
    pub fn message(&self) -> (text: String)
        ensures
            text@ == message_of(*self),
    {
        match self {
            OptsError::TooManyArguments => "Too many arguments".to_owned(),
            OptsError::MissingValue(Flag::Radius) => "Expected a value after --radius|-r".to_owned(),
            OptsError::MissingValue(Flag::Sigma) => "Expected a value after --sigma|-s".to_owned(),
            OptsError::MissingValue(Flag::Threads) => "Expected a value after --threads|-t".to_owned(),
            OptsError::InvalidValue(Flag::Radius) => "Expected a number after --radius|-r".to_owned(),
            OptsError::InvalidValue(Flag::Sigma) => "Expected a float after --sigma|-s".to_owned(),
            OptsError::InvalidValue(Flag::Threads) => "Expected a number after --threads|-t".to_owned(),
            OptsError::HelpRequested => "Help requested".to_owned(),
            OptsError::MissingOriginal => "Expected an original image".to_owned(),
        }
    }
}

/// The options of a run. The standard deviation is kept as the text that
/// was given, and the destination is absent where none was given.
#[derive(Clone, Debug, PartialEq, Eq)]
pub struct Opts {
    pub radius: u8,
    pub sigma: String,
    pub original: String,
    pub blurred: Option<String>,
    pub n_threads: usize,
}

/// What was read of a command line so far.
pub struct Scan {
    pub radius: u8,
    pub sigma: Seq<char>,
    pub n_threads: usize,
    pub original: Option<Seq<char>>,
    pub blurred: Option<Seq<char>>,
}

impl View for Opts {
    type V = Scan;

    open spec fn view(&self) -> Scan {
        Scan {
            radius: self.radius,
            sigma: self.sigma@,
            n_threads: self.n_threads,
            original: Some(self.original@),
            blurred: match self.blurred {
                Some(path) => Some(path@),
                None => None,
            },
        }
    }
}

/// Whether every character is one of the ten digits.
pub open spec fn all_digits(text: Seq<char>) -> bool {
    forall|i: int| 0 <= i < text.len() ==> '0' <= #[trigger] text[i] <= '9'
}

/// The number that a run of digits writes in base ten.
pub open spec fn digits_value(text: Seq<char>) -> nat
    decreases text.len(),
{
    if text.len() == 0 {
        0
    } else {
        (digits_value(text.drop_last()) * 10 + (text.last() as nat - '0' as nat)) as nat
    }
}

/// The number that `text` writes, where it is one that `limit` admits:
/// digits alone, at least one of them, a plus sign before them at most.
pub open spec fn decimal(text: Seq<char>, limit: nat) -> Option<nat> {
    let digits = if text.len() > 0 && text[0] == '+' {
        text.drop_first()
    } else {
        text
    };
    if digits.len() > 0 && all_digits(digits) && digits_value(digits) <= limit {
        Some(digits_value(digits))
    } else {
        None
    }
}

/// `str::parse` to a `u64`: the number that the text writes in base ten, or
/// nothing where the text is empty, holds anything but digits behind an
/// optional plus sign, or writes a number beyond the type.
#[verifier::external_body]
fn parse_decimal(text: &str) -> (value: Option<u64>)
    ensures
        value.is_some() <==> decimal(text@, u64::MAX as nat).is_some(),
        value matches Some(n) ==> decimal(text@, u64::MAX as nat) == Some(n as nat),
{
    text.parse::<u64>().ok()
}

/// The option that a word names, if it names one.
pub open spec fn flag_of(word: Seq<char>) -> Option<Flag> {
    if word == "--radius"@ || word == "-r"@ {
        Some(Flag::Radius)
    } else if word == "--sigma"@ || word == "-s"@ {
        Some(Flag::Sigma)
    } else if word == "--threads"@ || word == "-t"@ {
        Some(Flag::Threads)
    } else {
        None
    }
}

/// Whether a word asks for the help text.
pub open spec fn asks_help(word: Seq<char>) -> bool {
    word == "--help"@ || word == "-h"@
}

/// What is read before the first word: a radius of ten pixels, a standard
/// deviation of ten, ten workers, and no image.
pub open spec fn defaults() -> Scan {
    Scan { radius: 10, sigma: "10"@, n_threads: 10, original: None, blurred: None }
}

/// What is read once the value `text` of the option `flag` is taken in.
pub open spec fn with_value(so_far: Scan, flag: Flag, text: Seq<char>) -> Result<Scan, OptsError> {
    match flag {
        Flag::Radius => match decimal(text, u8::MAX as nat) {
            Some(n) => Ok(Scan { radius: n as u8, ..so_far }),
            None => Err(OptsError::InvalidValue(Flag::Radius)),
        },
        Flag::Sigma => Ok(Scan { sigma: text, ..so_far }),
        Flag::Threads => match decimal(text, usize::MAX as nat) {
            Some(n) => Ok(Scan { n_threads: n as usize, ..so_far }),
            None => Err(OptsError::InvalidValue(Flag::Threads)),
        },
    }
}

/// What is read once a word that is no option is taken in: the first such
/// word names the image, and of the later ones the last names the
/// destination.
pub open spec fn with_path(so_far: Scan, word: Seq<char>) -> Scan {
    if so_far.original is Some {
        Scan { blurred: Some(word), ..so_far }
    } else {
        Scan { original: Some(word), ..so_far }
    }
}

/// What is read of `words` from the position `at` on, after `so_far`.
pub open spec fn scan(words: Seq<Seq<char>>, at: int, so_far: Scan) -> Result<Scan, OptsError>
    decreases words.len() - at,
{
    if at < 0 || at >= words.len() {
        Ok(so_far)
    } else if let Some(flag) = flag_of(words[at]) {
        if at + 1 >= words.len() {
            Err(OptsError::MissingValue(flag))
        } else {
            match with_value(so_far, flag, words[at + 1]) {
                Ok(next) => scan(words, at + 2, next),
                Err(e) => Err(e),
            }
        }
    } else if asks_help(words[at]) {
        Err(OptsError::HelpRequested)
    } else {
        scan(words, at + 1, with_path(so_far, words[at]))
    }
}

/// The options that a command line gives, its first word being the name of
/// the program.
pub open spec fn parse(words: Seq<Seq<char>>) -> Result<Scan, OptsError> {
    if words.len() > 9 {
        Err(OptsError::TooManyArguments)
    } else {
        match scan(words, 1, defaults()) {
            Ok(read) => if read.original is Some {
                Ok(read)
            } else {
                Err(OptsError::MissingOriginal)
            },
            Err(e) => Err(e),
        }
    }
}

/// The words of a command line as sequences of characters.
pub open spec fn words_of(args: Seq<String>) -> Seq<Seq<char>> {
    args.map_values(|word: String| word@)
}

/// Whether `word` is the text `literal`.
fn is_word(word: &String, literal: &str) -> (same: bool)
    ensures
        same == (word@ == literal@),
{
    let other = literal.to_owned();
    *word == other
}

/// Reads the option that a word names, if it names one.
fn read_flag(word: &String) -> (flag: Option<Flag>)
    ensures
        flag == flag_of(word@),
{
    if is_word(word, "--radius") || is_word(word, "-r") {
        Some(Flag::Radius)
    } else if is_word(word, "--sigma") || is_word(word, "-s") {
        Some(Flag::Sigma)
    } else if is_word(word, "--threads") || is_word(word, "-t") {
        Some(Flag::Threads)
    } else {
        None
    }
}

/// Reads a number of at most `limit` from `text`.
fn read_number(text: &String, limit: u64) -> (value: Option<u64>)
    ensures
        value.is_some() <==> decimal(text@, limit as nat).is_some(),
        value matches Some(n) ==> decimal(text@, limit as nat) == Some(n as nat),
{
    match parse_decimal(text.as_str()) {
        Some(n) => if n <= limit {
            Some(n)
        } else {
            None
        },
        None => None,
    }
}

impl Opts {
    /// Reads the options from the words of a command line, the first word
    /// being the name of the program. Options may stand in any order; one
    /// given twice counts as given last.
    pub fn new(args: Vec<String>) -> (opts: Result<Opts, OptsError>)
        ensures
            match opts {
                Ok(read) => parse(words_of(args@)) == Ok::<Scan, OptsError>(read@),
                Err(e) => parse(words_of(args@)) == Err::<Scan, OptsError>(e),
            },
    {
        let ghost words = words_of(args@);
        if args.len() > 9 {
            return Err(OptsError::TooManyArguments);
        }
        let mut radius: u8 = 10;
        let mut sigma: String = "10".to_owned();
        let mut n_threads: usize = 10;
        let mut original: Option<String> = None;
        let mut blurred: Option<String> = None;
        let mut at: usize = 1;
        while at < args.len()
            invariant
                words == words_of(args@),
                args.len() <= 9,
                1 <= at,
                scan(words, 1, defaults()) == scan(
                    words,
                    at as int,
                    Scan {
                        radius,
                        sigma: sigma@,
                        n_threads,
                        original: match original {
                            Some(path) => Some(path@),
                            None => None,
                        },
                        blurred: match blurred {
                            Some(path) => Some(path@),
                            None => None,
                        },
                    },
                ),
            decreases args.len() - at,
        {
            let word = &args[at];
            assert(words[at as int] == word@);
            match read_flag(word) {
                Some(flag) => {
                    if at + 1 >= args.len() {
                        return Err(OptsError::MissingValue(flag));
                    }
                    let text = &args[at + 1];
                    assert(words[at + 1] == text@);
                    match flag {
                        Flag::Radius => match read_number(text, 255) {
                            Some(n) => {
                                radius = n as u8;
                            },
                            None => {
                                return Err(OptsError::InvalidValue(Flag::Radius));
                            },
                        },
                        Flag::Sigma => {
                            sigma = text.clone();
                        },
                        Flag::Threads => match read_number(text, usize::MAX as u64) {
                            Some(n) => {
                                n_threads = n as usize;
                            },
                            None => {
                                return Err(OptsError::InvalidValue(Flag::Threads));
                            },
                        },
                    }
                    at = at + 2;
                },
                None => {
                    if is_word(word, "--help") || is_word(word, "-h") {
                        return Err(OptsError::HelpRequested);
                    }
                    if original.is_some() {
                        blurred = Some(word.clone());
                    } else {
                        original = Some(word.clone());
                    }
                    at = at + 1;
                },
            }
        }
        match original {
            Some(path) => Ok(Opts { radius, sigma, original: path, blurred, n_threads }),
            None => Err(OptsError::MissingOriginal),
        }
    }
}

} // verus!
