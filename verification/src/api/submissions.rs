//! Submitted programs: the language of each, and how to run it in a
//! container.

use crate::api::{AIError, Error, State, User};
use crate::config::Config;
use crate::docker::{CPP_IMAGE, JAVA_IMAGE, PYTHON_IMAGE};
use base64::prelude::BASE64_STANDARD;
use base64::Engine;
use vstd::prelude::*;

verus! {

/// The language of a submitted program.
#[derive(Debug, Clone, Copy, PartialEq, Eq, Structural)]
pub enum Language {
    Cpp,
    Java,
    Python,
}

/// Whether two texts are the same.
pub fn same_text(a: &str, b: &str) -> (r: bool)
    ensures
        r == (a@ == b@),
{
    let n = a.unicode_len();
    if n != b.unicode_len() {
        return false;
    }
    let mut k: usize = 0;
    while k < n
        invariant
            n == a@.len(),
            n == b@.len(),
            k <= n,
            forall|j: int| 0 <= j < k ==> a@[j] == b@[j],
        decreases n - k,
    {
        if a.get_char(k) != b.get_char(k) {
            return false;
        }
        k += 1;
    }
    assert(a@ =~= b@);
    true
}

impl Language {
    /// The name of the language, as it stands in requests and file names.
    pub open spec fn name(self) -> Seq<char> {
        match self {
            Language::Cpp => "cpp"@,
            Language::Java => "java"@,
            Language::Python => "python"@,
        }
    }

    /// The container image in which programs of the language run.
    pub open spec fn image(self) -> Seq<char> {
        match self {
            Language::Cpp => CPP_IMAGE@,
            Language::Java => JAVA_IMAGE@,
            Language::Python => PYTHON_IMAGE@,
        }
    }

    /// What follows the encoded program in the shell command of the language:
    /// the program is decoded into a file, built where the language asks for
    /// it, and run.
    pub open spec fn script(self) -> Seq<char> {
        match self {
            Language::Cpp => " | base64 -d > /script.cpp && g++ /script.cpp -o /exe && /exe"@,
            Language::Java => " | base64 -d > /script.java && java /script.java"@,
            Language::Python => " | base64 -d > /script.py && python /script.py"@,
        }
    }

    /// The name of the language.
    pub fn to_string(&self) -> (s: String)
        ensures
            s@ == self.name(),
    {
        match self {
            Language::Cpp => String::from_str("cpp"),
            Language::Java => String::from_str("java"),
            Language::Python => String::from_str("python"),
        }
    }

    /// The language with the given name; any other text is refused.
    pub fn from_str(s: &str) -> (r: Result<Language, Error>)
        ensures
            r is Ok ==> r.unwrap().name() == s@,
            r is Err ==> r.unwrap_err() is InvalidLanguage,
            r is Err <==> forall|lang: Language| #[trigger] lang.name() != s@,
    {
        if same_text(s, "cpp") {
            assert(Language::Cpp.name() == s@);
            Ok(Language::Cpp)
        } else if same_text(s, "java") {
            assert(Language::Java.name() == s@);
            Ok(Language::Java)
        } else if same_text(s, "python") {
            assert(Language::Python.name() == s@);
            Ok(Language::Python)
        } else {
            assert forall|lang: Language| #[trigger] lang.name() != s@ by {
                match lang {
                    Language::Cpp => {},
                    Language::Java => {},
                    Language::Python => {},
                }
            }
            Err(Error::InvalidLanguage)
        }
    }
}

/// The standard Base64 encoding of `bytes`, with padding, as the `base64`
/// crate writes it.
pub uninterp spec fn base64_standard(bytes: Seq<u8>) -> Seq<char>;

/// Whether a program of `len` bytes is short enough that its encoding, four
/// characters for every three bytes, still has a length.
pub open spec fn encodable(len: nat) -> bool {
    len / 3 * 4 + 4 <= isize::MAX
}

/// Calls `Engine::encode` on `BASE64_STANDARD`, which encodes the bytes with
/// the standard alphabet and padding. The call panics where the encoded
/// length overflows, which `requires` leaves out.
#[verifier::external_body]
fn base64_encode(bytes: &Vec<u8>) -> (r: String)
    requires
        encodable(bytes@.len()),
    ensures
        r@ == base64_standard(bytes@),
{
    BASE64_STANDARD.encode(bytes)
}

/// A submitted program: who submitted it, in which language, and the path of
/// the file that holds it.
#[derive(Debug)]
pub struct Submission {
    pub name: String,
    pub lang: Language,
    pub code: String,
}

impl Clone for Submission {
    fn clone(&self) -> (r: Self)
        ensures
            r == *self,
    {
        Submission { name: self.name.clone(), lang: self.lang, code: self.code.clone() }
    }
}

/// How to run a program: the container image, and the shell command to run
/// in it.
#[derive(Debug)]
pub struct Launch {
    pub image: String,
    pub command: String,
}

/// What is known of a submission: its text and its language.
#[derive(Debug)]
pub struct SubmissionStatus {
    pub code: String,
    pub lang: Language,
}

/// The shell command that runs a program of the language `lang` whose
/// encoding is `encoded`.
pub open spec fn shell_command(lang: Language, encoded: Seq<char>) -> Seq<char> {
    "echo "@ + encoded + lang.script()
}

impl Submission {
    /// The submission of a user who has submitted nothing yet: it names the
    /// file `code`, and its language is C++.
    pub fn empty(name: String, code: String) -> (r: Self)
        ensures
            r == (Submission { name, lang: Language::Cpp, code }),
    {
        Self { name, lang: Language::Cpp, code }
    }

    /// Whether there is a program to run: the file was found, and it is not
    /// empty.
    pub open spec fn runnable(code: Option<&Vec<u8>>) -> bool {
        code is Some && code.unwrap()@.len() > 0
    }

    /// Says how to run the program, given the content of its file, or `None`
    /// for a file that is missing. A missing or empty program is refused as an
    /// empty submission, and nothing is to be run. Otherwise the program runs in
    /// the image of its language, by a shell command that decodes it from
    /// Base64 into a file, builds it where the language asks for it, and runs
    /// it.
    pub fn start(&self, code: Option<&Vec<u8>>) -> (r: Result<Launch, Error>)
        requires
            code is Some ==> encodable(code.unwrap()@.len()),
        ensures
            r is Ok <==> Self::runnable(code),
            r is Ok ==> {
                &&& r.unwrap().image@ == self.lang.image()
                &&& r.unwrap().command@ == shell_command(self.lang, base64_standard(code.unwrap()@))
            },
            r is Err ==> {
                &&& r.unwrap_err() is AIFailed
                &&& r.unwrap_err()->error == AIError::EmptySubmission
                &&& r.unwrap_err()->ai_output@ == Seq::<char>::empty()
                &&& r.unwrap_err()->move_ is None
            },
    {
        let bytes = match code {
            Some(bytes) => bytes,
            None => {
                return Err(
                    Error::AIFailed {
                        error: AIError::EmptySubmission,
                        ai_output: String::new(),
                        move_: None,
                    },
                );
            },
        };
        if bytes.len() == 0 {
            return Err(
                Error::AIFailed { error: AIError::EmptySubmission, ai_output: String::new(), move_: None },
            );
        }
        let base_code = base64_encode(bytes);
        let mut command = String::from_str("echo ");
        command.append(base_code.as_str());
        let image = match self.lang {
            Language::Cpp => {
                command.append(" | base64 -d > /script.cpp && g++ /script.cpp -o /exe && /exe");
                String::from_str(CPP_IMAGE)
            },
            Language::Java => {
                command.append(" | base64 -d > /script.java && java /script.java");
                String::from_str(JAVA_IMAGE)
            },
            Language::Python => {
                command.append(" | base64 -d > /script.py && python /script.py");
                String::from_str(PYTHON_IMAGE)
            },
        };
        Ok(Launch { image, command })
    }
}

/// The place of the last dot among the first `n` characters of a text, or
/// -1 where there is none.
pub open spec fn last_dot(s: Seq<char>, n: int) -> int
    decreases n,
{
    if n <= 0 {
        -1
    } else if s[n - 1] == '.' {
        n - 1
    } else {
        last_dot(s, n - 1)
    }
}

/// The place of the last dot of a text, if it has one.
pub fn find_last_dot(s: &str) -> (r: Option<usize>)
    ensures
        match r {
            Some(i) => i == last_dot(s@, s@.len() as int) && i < s@.len(),
            None => last_dot(s@, s@.len() as int) == -1,
        },
{
    let mut n = s.unicode_len();
    while n > 0
        invariant
            n <= s@.len(),
            last_dot(s@, s@.len() as int) == last_dot(s@, n as int),
        decreases n,
    {
        if s.get_char(n - 1) == '.' {
            return Some(n - 1);
        }
        n -= 1;
    }
    None
}

impl Submission {
    /// The submission that a file in the data directory holds. The name of
    /// the file is the name of the user, a dot, and the name of the language;
    /// the name of the user may hold dots itself. A file with another name
    /// holds no submission.
    pub fn from_file_name(file_name: &str, code: String) -> (r: Option<Submission>)
        ensures
            r is Some <==> {
                let dot = last_dot(file_name@, file_name@.len() as int);
                dot >= 0 && exists|lang: Language|
                    #[trigger] lang.name() == file_name@.subrange(dot + 1, file_name@.len() as int)
            },
            r is Some ==> {
                let dot = last_dot(file_name@, file_name@.len() as int);
                &&& r.unwrap().name@ == file_name@.subrange(0, dot)
                &&& r.unwrap().lang.name() == file_name@.subrange(dot + 1, file_name@.len() as int)
                &&& r.unwrap().code == code
            },
    {
        let dot = match find_last_dot(file_name) {
            Some(dot) => dot,
            None => {
                return None;
            },
        };
        let n = file_name.unicode_len();
        let name = file_name.substring_char(0, dot);
        let lang = file_name.substring_char(dot + 1, n);
        match Language::from_str(lang) {
            Ok(lang) => Some(Submission { name: String::from_str(name), lang, code }),
            Err(_) => None,
        }
    }
}

/// The submission of a user, whose file holds the program to show. A user
/// without a submission is not found.
pub fn get_submission(user: &User, state: &State) -> (r: Result<Submission, Error>)
    ensures
        r is Ok <==> state.submissions@.contains_key(user.name@),
        r is Ok ==> r.unwrap() == state.submissions@[user.name@],
        r is Err ==> r.unwrap_err() is NotFound,
{
    match state.submissions.get(user.name.as_str()) {
        Some(submission) => Ok(submission.clone()),
        None => Err(Error::NotFound),
    }
}

/// The submission that a user makes in the language named `lang`: it is kept
/// in the file of that user and language in the data directory. A name that
/// is not the name of a language is refused. The state is not changed yet: the
/// program has to be written to the file first.
pub fn post_submission(user: &User, lang: &str, config: &Config) -> (r: Result<Submission, Error>)
    ensures
        r is Ok <==> exists|language: Language| #[trigger] language.name() == lang@,
        r is Ok ==> {
            &&& r.unwrap().name@ == user.name@
            &&& r.unwrap().lang.name() == lang@
            &&& r.unwrap().code@ == config.spec_submission_path(user.name@, r.unwrap().lang)
        },
        r is Err ==> r.unwrap_err() is InvalidLanguage,
{
    match Language::from_str(lang) {
        Ok(lang) => Ok(
            Submission {
                name: user.name.clone(),
                lang,
                code: config.submission_path(user.name.as_str(), lang),
            },
        ),
        Err(e) => Err(e),
    }
}

impl Launch {
    /// The arguments with which `docker` runs the program: as root, with its
    /// input open, in the image, through a shell.
    pub fn arguments(&self) -> (args: Vec<String>)
        ensures
            args@.len() == 8,
            args@[0]@ == "run"@,
            args@[1]@ == "-u"@,
            args@[2]@ == "root"@,
            args@[3]@ == "-i"@,
            args@[4]@ == self.image@,
            args@[5]@ == "sh"@,
            args@[6]@ == "-c"@,
            args@[7]@ == self.command@,
    {
        let mut args: Vec<String> = Vec::new();
        args.push(String::from_str("run"));
        args.push(String::from_str("-u"));
        args.push(String::from_str("root"));
        args.push(String::from_str("-i"));
        args.push(self.image.clone());
        args.push(String::from_str("sh"));
        args.push(String::from_str("-c"));
        args.push(self.command.clone());
        args
    }
}

} // verus!
