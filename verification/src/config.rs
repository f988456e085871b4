//! The configuration of the arena, made once when it starts and handed to
//! whoever needs it.

use crate::api::submissions::Language;
use vstd::prelude::*;

verus! {

/// The configuration: where the submitted programs are kept.
#[derive(Debug)]
pub struct Config {
    pub data_dir: String,
}

impl Config {
    /// The path of the file that is made for a user who has submitted
    /// nothing yet: the user's name in the data directory.
    pub open spec fn spec_empty_path(&self, name: Seq<char>) -> Seq<char> {
        self.data_dir@ + seq!['/'] + name
    }

    /// The path of the file that holds a user's program in a language: the
    /// user's name in the data directory, a dot, and the name of the language.
    pub open spec fn spec_submission_path(&self, name: Seq<char>, lang: Language) -> Seq<char> {
        self.data_dir@ + seq!['/'] + name + seq!['.'] + lang.name()
    }

    /// See [`Config::spec_empty_path`].
    pub fn empty_path(&self, name: &str) -> (path: String)
        ensures
            path@ == self.spec_empty_path(name@),
    {
        proof {
            reveal_strlit("/");
        }
        let mut path = self.data_dir.clone();
        path.append("/");
        path.append(name);
        assert(path@ =~= self.spec_empty_path(name@));
        path
    }

    /// See [`Config::spec_submission_path`].
    pub fn submission_path(&self, name: &str, lang: Language) -> (path: String)
        ensures
            path@ == self.spec_submission_path(name@, lang),
    {
        proof {
            reveal_strlit("/");
            reveal_strlit(".");
        }
        let mut path = self.data_dir.clone();
        path.append("/");
        path.append(name);
        path.append(".");
        let lang_name = lang.to_string();
        path.append(lang_name.as_str());
        assert(path@ =~= self.spec_submission_path(name@, lang));
        path
    }
}

} // verus!
