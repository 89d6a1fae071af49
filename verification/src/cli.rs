//! Configuration of a checking run, as parsed from the command line, and
//! the construction of check requests from it.

use vstd::prelude::*;

use crate::languagetool::categories::{spec_category_name, Categories};
use crate::languagetool::{CheckLevel, CheckRequest, RequestV};

verus! {

/// The value of the check request built for text `text` under
/// configuration `c`.
pub open spec fn spec_check_request(text: Seq<char>, c: Config) -> RequestV {
    RequestV {
        text: text,
        language: c.language@,
        username: if c.username is Some && c.api_key is Some {
            Some(c.username->Some_0@)
        } else {
            None
        },
        api_key: if c.username is Some && c.api_key is Some {
            Some(c.api_key->Some_0@)
        } else {
            None
        },
        level: if c.picky {
            CheckLevel::Picky
        } else {
            CheckLevel::Default
        },
        enabled_categories: c.enable_categories@.map_values(
            |cat: Categories| spec_category_name(cat),
        ),
        disabled_categories: c.disable_categories@.map_values(
            |cat: Categories| spec_category_name(cat),
        ),
        enabled_rules: c.enable_rules@.map_values(|s: String| s@),
        disabled_rules: c.disable_rules@.map_values(|s: String| s@),
        enabled_only: c.enable_only,
    }
}

/// The options that shape a checking run.
#[derive(Debug)]
pub struct Config {
    pub hostname: String,
    pub port: Option<String>,
    pub username: Option<String>,
    pub api_key: Option<String>,
    pub disable_categories: Vec<Categories>,
    pub enable_categories: Vec<Categories>,
    pub disable_rules: Vec<String>,
    pub enable_rules: Vec<String>,
    pub enable_only: bool,
    pub language: String,
    pub picky: bool,
    pub no_cache: bool,
    pub show_all: bool,
}

/// The checking subcommand: the root paths to scan, and the options.
#[derive(Debug)]
pub struct LanguageTool {
    pub paths: Vec<String>,
    pub config: Config,
}

/// The host tool's command line: one subcommand.
#[derive(Debug)]
pub enum Cargo {
    LanguageTool(LanguageTool),
}

/// A copy of a list of strings.
fn copy_strings(v: &Vec<String>) -> (r: Vec<String>)
    ensures
        r@ == v@,
{
    let mut r: Vec<String> = Vec::new();
    let mut i: usize = 0;
    while i < v.len()
        invariant
            i <= v@.len(),
            r@ == v@.subrange(0, i as int),
        decreases v@.len() - i,
    {
        r.push(v[i].clone());
        proof {
            assert(r@ =~= v@.subrange(0, i + 1 as int));
        }
        i = i + 1;
    }
    proof {
        assert(v@.subrange(0, v@.len() as int) =~= v@);
    }
    r
}

/// The wire names of a list of categories.
fn category_names(v: &Vec<Categories>) -> (r: Vec<String>)
    ensures
        r@.map_values(|s: String| s@) == v@.map_values(|c: Categories| spec_category_name(c)),
{
    let mut r: Vec<String> = Vec::new();
    let mut i: usize = 0;
    while i < v.len()
        invariant
            i <= v@.len(),
            r@.len() == i,
            forall|j: int|
                0 <= j < i ==> (#[trigger] r@[j])@ == spec_category_name(v@[j]),
        decreases v@.len() - i,
    {
        r.push(v[i].name());
        i = i + 1;
    }
    proof {
        assert(r@.map_values(|s: String| s@) =~= v@.map_values(
            |c: Categories| spec_category_name(c),
        ));
    }
    r
}

impl Config {
    /// The check request for one block's normalized text under this
    /// configuration: the text itself; the configured language; both
    /// credentials when both are set, neither otherwise; the picky level
    /// when asked for; and the configured category and rule lists.
    pub fn check_request(&self, text: Vec<char>) -> (r: CheckRequest)
        ensures
            r@ == spec_check_request(text@, *self),
            r.text == text,
            r.language == self.language,
            self.username is Some && self.api_key is Some ==> r.username == self.username
                && r.api_key == self.api_key,
            !(self.username is Some && self.api_key is Some) ==> r.username is None
                && r.api_key is None,
            r.level == (if self.picky {
                CheckLevel::Picky
            } else {
                CheckLevel::Default
            }),
            r.enabled_categories@.map_values(|s: String| s@) == self.enable_categories@.map_values(
                |c: Categories| spec_category_name(c),
            ),
            r.disabled_categories@.map_values(|s: String| s@)
                == self.disable_categories@.map_values(|c: Categories| spec_category_name(c)),
            r.enabled_rules@ == self.enable_rules@,
            r.disabled_rules@ == self.disable_rules@,
            r.enabled_only == self.enable_only,
    {
        let ghost tv = text@;
        let (username, api_key) = match (&self.username, &self.api_key) {
            (Some(u), Some(k)) => (Some(u.clone()), Some(k.clone())),
            _ => (None, None),
        };
        let r = CheckRequest {
            text,
            language: self.language.clone(),
            username,
            api_key,
            level: if self.picky {
                CheckLevel::Picky
            } else {
                CheckLevel::Default
            },
            enabled_categories: category_names(&self.enable_categories),
            disabled_categories: category_names(&self.disable_categories),
            enabled_rules: copy_strings(&self.enable_rules),
            disabled_rules: copy_strings(&self.disable_rules),
            enabled_only: self.enable_only,
        };
        proof {
            assert(r@ =~= spec_check_request(tv, *self));
        }
        r
    }
}

} // verus!
