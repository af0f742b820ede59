//! The decisions of the editor window: what a message changes and what the
//! window does next, and which lines it lists.

use vstd::prelude::*;
use std::path::PathBuf;
use crate::subtitle::{SubtitleFile, SubtitleFileView};

verus! {

/// `std::path::PathBuf`, carried through as it is.
#[verifier::external_type_specification]
#[verifier::external_body]
pub struct ExPathBuf(PathBuf);

/// `std::io::ErrorKind`, carried through as it is.
#[verifier::external_type_specification]
#[verifier::external_body]
pub struct ExIoErrorKind(std::io::ErrorKind);

/// Copies an I/O error kind.
///
/// Trusted: `std::io::ErrorKind` is `Copy`, so its `clone` returns the same
/// kind.
pub assume_specification[ <std::io::ErrorKind as Clone>::clone ](kind: &std::io::ErrorKind) -> (r: std::io::ErrorKind)
    ensures
        r == *kind,
;

/// Copies a path.
///
/// Trusted: `PathBuf::clone` returns a new path buffer; nothing is stated of
/// it here, as nothing here reads a path.
pub assume_specification[ <PathBuf as Clone>::clone ](path: &PathBuf) -> PathBuf;

/// Copies a result.
///
/// Trusted: `Result::clone` clones the value or the error it holds; nothing
/// is stated of the copy here.
pub assume_specification<T, E>[ <Result<T, E> as Clone>::clone ](result: &Result<T, E>) -> Result<T, E>
    where
        T: Clone,
        E: Clone,
;

/// Why no file was picked.
#[derive(Debug, Clone)]
pub enum Error {
    DialogClosed,
    IoError(std::io::ErrorKind),
}

/// What the window tells the editor.
#[derive(Clone)]
pub enum Message {
    /// The user asks to open a file.
    OpenFile,
    /// The file dialog has closed, with the picked file or the reason there
    /// is none.
    FileOpened(Result<PathBuf, Error>),
}

/// What the window does next.
#[derive(Clone, Copy, PartialEq, Eq, Debug)]
pub enum Command {
    /// Nothing.
    Nothing,
    /// Opens the file dialog.
    OpenDialog,
    /// Reads the script at `subtitle_file_path`, makes it the subtitle file,
    /// and shows its first line in the editor.
    LoadAndShowFirstLine,
    /// Shows the first line of the subtitle file in the editor.
    ShowFirstLine,
}

/// The state of the editor that the window shows.
pub struct App {
    subtitle_file: SubtitleFile,
    subtitle_file_path: Option<PathBuf>,
    is_loading: bool,
}

/// What an `App` holds.
pub struct AppView {
    pub subtitle_file: SubtitleFileView,
    pub subtitle_file_path: Option<PathBuf>,
    pub is_loading: bool,
}

impl View for App {
    type V = AppView;

    closed spec fn view(&self) -> AppView {
        AppView {
            subtitle_file: self.subtitle_file@,
            subtitle_file_path: self.subtitle_file_path,
            is_loading: self.is_loading,
        }
    }
}

/// The most lines the window lists below the first one.
pub const MAX_LISTED_LINES: usize = 20;

/// The indices of the lines that the window lists for a file of `n` lines:
/// none when there are none; otherwise the first line, and then the first
/// `min(n, 20)` lines (so the first line twice).
pub open spec fn listed_lines(n: nat) -> Seq<usize> {
    if n == 0 {
        Seq::empty()
    } else {
        let shown: nat = if n < MAX_LISTED_LINES { n } else { MAX_LISTED_LINES as nat };
        seq![0usize] + Seq::new(shown, |i: int| i as usize)
    }
}

/// Every line the window lists exists: the listed indices are below the
/// number of lines, the first listed line is line 0, and at most 21 lines are
/// listed.
pub proof fn listed_lines_exist(n: nat)
    ensures
        forall|i: int| 0 <= i < listed_lines(n).len() ==> (#[trigger] listed_lines(n)[i]) < n,
        n > 0 ==> listed_lines(n).len() > 0 && listed_lines(n)[0] == 0,
        listed_lines(n).len() <= MAX_LISTED_LINES + 1,
{
    if n > 0 {
        let shown: nat = if n < MAX_LISTED_LINES { n } else { MAX_LISTED_LINES as nat };
        let tail = Seq::new(shown, |i: int| i as usize);
        assert forall|i: int| 0 <= i < listed_lines(n).len() implies (#[trigger] listed_lines(n)[i]) < n by {
            if i > 0 {
                assert(listed_lines(n)[i] == tail[i - 1]);
            }
        }
    }
}

/// For a file of `n` lines the window lists, after line 0, the lines 0, 1,
/// 2, ... in order, each once, up to line 19 or the last line, whichever
/// comes first: every line below 20 is listed, and no other.
pub proof fn listed_lines_are_the_first_lines(n: nat)
    ensures
        n == 0 ==> listed_lines(n).len() == 0,
        n > 0 ==> listed_lines(n).len() == 1 + (if n < MAX_LISTED_LINES { n } else { MAX_LISTED_LINES as nat }),
        n > 0 ==> listed_lines(n)[0] == 0,
        forall|i: int| 1 <= i < listed_lines(n).len() ==> #[trigger] listed_lines(n)[i] == i - 1,
{
    if n > 0 {
        let shown: nat = if n < MAX_LISTED_LINES { n } else { MAX_LISTED_LINES as nat };
        let tail = Seq::new(shown, |k: int| k as usize);
        assert forall|i: int| 1 <= i < listed_lines(n).len() implies #[trigger] listed_lines(n)[i] == i - 1 by {
            assert(listed_lines(n)[i] == tail[i - 1]);
        }
    }
}

impl App {
    /// An editor with an empty file, no path and nothing loading.
    pub fn new() -> (a: App)
        ensures
            a@.subtitle_file.lines.len() == 0,
            a@.subtitle_file.file_name.len() == 0,
            a@.subtitle_file.script_info == Map::<Seq<char>, Seq<char>>::empty(),
            a@.subtitle_file.styles == Map::<Seq<char>, crate::subtitle::AssStyleView>::empty(),
            a@.subtitle_file.video.len() == 0,
            a@.subtitle_file.audio.len() == 0,
            a@.subtitle_file_path is None,
            !a@.is_loading,
    {
        App { subtitle_file: SubtitleFile::default(), subtitle_file_path: None, is_loading: false }
    }

    /// Takes in a message: asking to open a file opens the dialog unless a
    /// dialog is already open; a closed dialog ends the loading, records the
    /// picked path, and asks for the file to be read and its first line
    /// shown (or, with no file picked, for the first line to be shown).
    pub fn update(&mut self, message: Message) -> (c: Command)
        ensures
            match message {
                Message::OpenFile => if old(self)@.is_loading {
                    c == Command::Nothing && final(self)@ == old(self)@
                } else {
                    c == Command::OpenDialog && final(self)@ == (AppView {
                        is_loading: true,
                        ..old(self)@
                    })
                },
                Message::FileOpened(Ok(path)) => c == Command::LoadAndShowFirstLine && final(self)@
                    == (AppView { is_loading: false, subtitle_file_path: Some(path), ..old(self)@ }),
                Message::FileOpened(Err(_)) => c == Command::ShowFirstLine && final(self)@
                    == (AppView { is_loading: false, ..old(self)@ }),
            },
    {
        match message {
            Message::OpenFile => {
                if self.is_loading {
                    Command::Nothing
                } else {
                    self.is_loading = true;
                    Command::OpenDialog
                }
            },
            Message::FileOpened(result) => {
                self.is_loading = false;
                match result {
                    Ok(path) => {
                        self.subtitle_file_path = Some(path);
                        Command::LoadAndShowFirstLine
                    },
                    Err(_) => Command::ShowFirstLine,
                }
            },
        }
    }

    /// Makes `file` the subtitle file.
    pub fn set_subtitle_file(&mut self, file: SubtitleFile)
        ensures
            final(self)@ == (AppView { subtitle_file: file@, ..old(self)@ }),
    {
        self.subtitle_file = file;
    }

    /// The subtitle file.
    pub fn subtitle_file(&self) -> (f: &SubtitleFile)
        ensures
            f@ == self@.subtitle_file,
    {
        &self.subtitle_file
    }

    /// The path of the last file picked.
    pub fn subtitle_file_path(&self) -> (p: &Option<PathBuf>)
        ensures
            *p == self@.subtitle_file_path,
    {
        &self.subtitle_file_path
    }

    /// A file dialog is open.
    pub fn is_loading(&self) -> (b: bool)
        ensures
            b == self@.is_loading,
    {
        self.is_loading
    }

    /// The indices of the lines the window lists, in order.
    pub fn listed_lines(&self) -> (r: Vec<usize>)
        ensures
            r@ == listed_lines(self@.subtitle_file.lines.len()),
    {
        let n = self.subtitle_file.get_number_of_line();
        let mut r: Vec<usize> = Vec::new();
        if n == 0 {
            assert(r@ =~= listed_lines(0));
            return r;
        }
        r.push(0);
        let shown = if n < MAX_LISTED_LINES {
            n
        } else {
            MAX_LISTED_LINES
        };
        let mut i: usize = 0;
        while i < shown
            invariant
                i <= shown,
                r@ == seq![0usize] + Seq::new(i as nat, |k: int| k as usize),
            decreases shown - i,
        {
            r.push(i);
            assert(seq![0usize] + Seq::new((i + 1) as nat, |k: int| k as usize) =~= (seq![0usize]
                + Seq::new(i as nat, |k: int| k as usize)).push(i));
            i = i + 1;
        }
        assert(r@ =~= listed_lines(n as nat));
        r
    }
}

} // verus!
