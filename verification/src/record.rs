//! File records and the line each one becomes in the checksum log.

use vstd::prelude::*;

verus! {

/// The checksum of one file and the path it was found under.
#[derive(Debug)]
pub struct FileRecord {
    pub checksum: u64,
    pub path: String,
}

/// What travels from the workers to the writer.
#[derive(Debug)]
pub enum Message {
    /// One hashed file.
    Record(FileRecord),
    /// Nothing more will come.
    Terminate,
}

/// What the writer does with a message.
#[derive(Debug)]
pub enum WriterAction {
    /// Append this line to the log and go on receiving.
    Append(String),
    /// Stop: the run is complete.
    Exit,
}

/// The width of the checksum column.
pub const CHECKSUM_WIDTH: usize = 20;

/// The number of spaces between the checksum column and the path.
pub const SEPARATOR_WIDTH: usize = 4;

/// The character of a decimal digit.
pub open spec fn digit_char(d: nat) -> char {
    if d == 0 {
        '0'
    } else if d == 1 {
        '1'
    } else if d == 2 {
        '2'
    } else if d == 3 {
        '3'
    } else if d == 4 {
        '4'
    } else if d == 5 {
        '5'
    } else if d == 6 {
        '6'
    } else if d == 7 {
        '7'
    } else if d == 8 {
        '8'
    } else {
        '9'
    }
}

/// A number in decimal, without sign or leading zeros.
pub open spec fn decimal(n: nat) -> Seq<char>
    decreases n,
{
    if n < 10 {
        seq![digit_char(n)]
    } else {
        decimal(n / 10).push(digit_char(n % 10))
    }
}

/// A run of `n` spaces.
pub open spec fn spaces(n: nat) -> Seq<char> {
    Seq::new(n, |i: int| ' ')
}

/// The checksum column: the decimal checksum, left-justified, filled with
/// spaces up to the column's width.
pub open spec fn checksum_column(checksum: u64) -> Seq<char> {
    let digits = decimal(checksum as nat);
    if digits.len() >= CHECKSUM_WIDTH {
        digits
    } else {
        digits + spaces((CHECKSUM_WIDTH - digits.len()) as nat)
    }
}

/// The log line of a record: checksum column, separator, path, newline.
pub open spec fn record_line(checksum: u64, path: Seq<char>) -> Seq<char> {
    checksum_column(checksum) + spaces(SEPARATOR_WIDTH as nat) + path + seq!['\n']
}

fn digit_str(d: u64) -> (s: &'static str)
    requires
        d < 10,
    ensures
        s@ == seq![digit_char(d as nat)],
{
    proof {
        reveal_strlit("0");
        reveal_strlit("1");
        reveal_strlit("2");
        reveal_strlit("3");
        reveal_strlit("4");
        reveal_strlit("5");
        reveal_strlit("6");
        reveal_strlit("7");
        reveal_strlit("8");
        reveal_strlit("9");
    }
    let s = if d == 0 {
        "0"
    } else if d == 1 {
        "1"
    } else if d == 2 {
        "2"
    } else if d == 3 {
        "3"
    } else if d == 4 {
        "4"
    } else if d == 5 {
        "5"
    } else if d == 6 {
        "6"
    } else if d == 7 {
        "7"
    } else if d == 8 {
        "8"
    } else {
        "9"
    };
    assert(s@ =~= seq![digit_char(d as nat)]);
    s
}

fn append_decimal(line: &mut String, n: u64)
    ensures
        final(line)@ == old(line)@ + decimal(n as nat),
    decreases n,
{
    if n >= 10 {
        append_decimal(line, n / 10);
    }
    line.append(digit_str(n % 10));
    assert(line@ =~= old(line)@ + decimal(n as nat));
}

/// The decimal text of a checksum.
pub fn decimal_string(n: u64) -> (text: String)
    ensures
        text@ == decimal(n as nat),
{
    let mut text = String::new();
    append_decimal(&mut text, n);
    assert(text@ =~= decimal(n as nat));
    text
}

/// The log line of a checksum and a path.
pub fn format_line(checksum: u64, path: &str) -> (line: String)
    ensures
        line@ == record_line(checksum, path@),
{
    let mut line = decimal_string(checksum);
    let ghost digits = line@;
    let mut width: usize = line.as_str().unicode_len();
    assert(line@ =~= digits + spaces(0));
    while width < CHECKSUM_WIDTH
        invariant
            width == line@.len(),
            digits.len() <= width,
            digits.len() < CHECKSUM_WIDTH ==> width <= CHECKSUM_WIDTH,
            digits.len() >= CHECKSUM_WIDTH ==> width == digits.len(),
            line@ == digits + spaces((width - digits.len()) as nat),
        decreases CHECKSUM_WIDTH - width,
    {
        proof {
            reveal_strlit(" ");
        }
        line.append(" ");
        width += 1;
        assert(line@ =~= digits + spaces((width - digits.len()) as nat));
    }
    assert(line@ =~= checksum_column(checksum));
    proof {
        reveal_strlit("    ");
        reveal_strlit("\n");
        assert("    "@ =~= spaces(SEPARATOR_WIDTH as nat));
        assert("\n"@ =~= seq!['\n']);
    }
    line.append("    ");
    line.append(path);
    line.append("\n");
    line
}

/// What is left of `path` below `base`: what `std::path::Path::strip_prefix`
/// returns for the two, `None` where `base` is not a prefix of `path` by whole
/// components. The path syntax is that of the platform the program is built
/// for.
pub uninterp spec fn path_below(path: Seq<char>, base: Seq<char>) -> Option<Seq<char>>;

/// Calls `std::path::Path::strip_prefix` on `path` with `base`. The call reads
/// nothing but its two arguments, so its result is named: the rest of the path
/// where the call succeeds, nothing where it fails. Both arguments are UTF-8,
/// and so is every part of them, so the rest converts to a string unchanged.
#[verifier::external_body]
fn strip_base(path: &str, base: &str) -> (rest: Option<String>)
    ensures
        match rest {
            Some(r) => path_below(path@, base@) == Some(r@),
            None => path_below(path@, base@) == None::<Seq<char>>,
        },
{
    match std::path::Path::new(path).strip_prefix(base) {
        Ok(rest) => Some(rest.to_string_lossy().into_owned()),
        Err(_) => None,
    }
}

/// The path that a record shows for a file found at `path` in a run with the
/// working directory `working_dir`: relative to it where the file lies under
/// it, else as given.
pub open spec fn relative_path(path: Seq<char>, working_dir: Seq<char>) -> Seq<char> {
    match path_below(path, working_dir) {
        Some(rest) => rest,
        None => path,
    }
}

/// The path to show for a file: what is left of it below the working
/// directory where it lies under it, else the path as given.
pub fn shown_path(path: String, below_working_dir: Option<String>) -> (shown: String)
    ensures
        shown@ == (match below_working_dir {
            Some(rest) => rest@,
            None => path@,
        }),
{
    match below_working_dir {
        Some(rest) => rest,
        None => path,
    }
}

impl FileRecord {
    /// This record with its path expressed relative to `working_dir` where
    /// the file lies under it, else as given. The checksum stays.
    pub fn relative_to(self, working_dir: &str) -> (record: FileRecord)
        ensures
            record.checksum == self.checksum,
            record.path@ == relative_path(self.path@, working_dir@),
    {
        let below = strip_base(self.path.as_str(), working_dir);
        FileRecord { checksum: self.checksum, path: shown_path(self.path, below) }
    }

    /// The line this record becomes in the log.
    pub fn to_line(&self) -> (line: String)
        ensures
            line@ == record_line(self.checksum, self.path@),
    {
        format_line(self.checksum, self.path.as_str())
    }
}

/// The writer's decision on one message: a record becomes its line, the
/// termination signal ends the loop.
pub fn consume(message: &Message) -> (action: WriterAction)
    ensures
        match *message {
            Message::Record(record) => action matches WriterAction::Append(line)
                && line@ == record_line(record.checksum, record.path@),
            Message::Terminate => action matches WriterAction::Exit,
        },
{
    match message {
        Message::Record(record) => WriterAction::Append(record.to_line()),
        Message::Terminate => WriterAction::Exit,
    }
}

} // verus!
