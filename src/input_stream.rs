//! Choosing the byte source from the command-line argument.
//!
//! Whether a path exists and whether it names a regular file are questions
//! for the file system; the caller asks them and hands the answers in.

use vstd::prelude::*;
use vstd::string::*;

verus! {

/// Where the numbers are read from.
#[derive(Debug, Clone)]
pub enum InputStream {
    /// Standard input, named `-` on the command line.
    Stdin,
    /// A regular file.
    Path(String),
}

/// Why an argument does not name an input source.
#[derive(Debug)]
pub enum InputStreamError {
    Empty,
    DoesNotExist(String),
    NotFile(String),
}

/// The argument that names standard input.
pub open spec fn stdin_name() -> Seq<char> {
    seq!['-']
}

impl Default for InputStream {
    fn default() -> (r: Self)
        ensures
            r is Stdin,
    {
        InputStream::Stdin
    }
}

impl InputStream {
    /// Resolves a command-line argument, given whether it exists as a path
    /// and whether that path is a regular file. An empty argument is refused;
    /// `-` is standard input, whatever the file system holds.
    pub fn resolve(s: &str, exists: bool, is_file: bool) -> (r: Result<InputStream, InputStreamError>)
        ensures
            s@.len() == 0 ==> r is Err && r->Err_0 is Empty,
            s@ == stdin_name() ==> r is Ok && r->Ok_0 is Stdin,
            s@.len() != 0 && s@ != stdin_name() ==> {
                if !exists {
                    r matches Err(InputStreamError::DoesNotExist(p)) && p@ == s@
                } else if !is_file {
                    r matches Err(InputStreamError::NotFile(p)) && p@ == s@
                } else {
                    r matches Ok(InputStream::Path(p)) && p@ == s@
                }
            },
    {
        let n = s.unicode_len();
        if n == 0 {
            return Err(InputStreamError::Empty);
        }
        if n == 1 && s.get_char(0) == '-' {
            assert(s@ =~= stdin_name());
            return Ok(InputStream::Stdin);
        }
        assert(s@ != stdin_name()) by {
            if s@ == stdin_name() {
                assert(s@[0] == '-');
            }
        }
        let path = s.to_owned();
        if !exists {
            Err(InputStreamError::DoesNotExist(path))
        } else if !is_file {
            Err(InputStreamError::NotFile(path))
        } else {
            Ok(InputStream::Path(path))
        }
    }

    /// The argument that names this source: `-` or the path.
    pub fn display(&self) -> (r: String)
        ensures
            self is Stdin ==> r@ == stdin_name(),
            self matches InputStream::Path(p) ==> r@ == p@,
    {
        match self {
            InputStream::Stdin => {
                let r = "-".to_owned();
                proof {
                    reveal_strlit("-");
                }
                r
            },
            InputStream::Path(p) => p.clone(),
        }
    }
}

} // verus!
