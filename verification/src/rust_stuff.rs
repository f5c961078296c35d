//! The `!crate` command: looks a crate up on crates.io and says what it is. Fetching the
//! answer from crates.io and reading its JSON is the caller's part.

use crate::request::Request;
use crate::response::Response;
use crate::text::{chars_of, is_whitespace, rtrim, lemma_rtrim_at, string_from_chars};
use vstd::prelude::*;

verus! {

/// The commands of the module.
pub struct RustStuff {
    commands: Vec<&'static str>,
}

/// A crate as crates.io describes it.
pub struct Crate {
    pub name: String,
    pub max_version: String,
    pub description: String,
    pub repository: String,
}

/// Why looking a crate up gave nothing.
#[derive(Debug, PartialEq, Eq)]
pub enum CrateError {
    /// No crate matched the query.
    NoMatches,
    /// crates.io could not be reached.
    CratesGet,
    /// The answer was not the JSON expected.
    Serde,
}

/// `s` with each newline replaced by a space and trailing whitespace removed.
pub open spec fn one_line(s: Seq<char>) -> Seq<char> {
    rtrim(s.map_values(|c: char| if c == '\n' { ' ' } else { c }))
}

/// The text the bot says about a crate: `name = version @ repository "description"`.
pub open spec fn crate_line(c: Crate) -> Seq<char> {
    c.name@ + " = "@ + c.max_version@ + " @ "@ + c.repository@ + " \""@ + one_line(c.description@)
        + "\""@
}

/// `s` with each newline replaced by a space and trailing whitespace removed.
pub fn flatten_description(s: &str) -> (r: String)
    ensures
        r@ == one_line(s@),
{
    let v = chars_of(s);
    let mut w: Vec<char> = Vec::new();
    let mut i: usize = 0;
    let ghost m = s@.map_values(|c: char| if c == '\n' { ' ' } else { c });
    while i < v.len()
        invariant
            v@ == s@,
            m == s@.map_values(|c: char| if c == '\n' { ' ' } else { c }),
            i <= v@.len(),
            w@ == m.subrange(0, i as int),
        decreases v@.len() - i,
    {
        let c = v[i];
        w.push(if c == '\n' { ' ' } else { c });
        i += 1;
        assert(w@ =~= m.subrange(0, i as int));
    }
    assert(w@ =~= m);
    let mut j = w.len();
    while j > 0 && is_whitespace(w[j - 1])
        invariant
            j <= w@.len(),
            w@ == m,
            forall|k: int| j <= k < w@.len() ==> crate::text::is_ws(#[trigger] w@[k]),
        decreases j,
    {
        j -= 1;
    }
    proof {
        lemma_rtrim_at(m, j as int);
    }
    w.truncate(j);
    string_from_chars(&w)
}

impl RustStuff {
    /// The module, answering `!crate` and `!crates`.
    pub fn create() -> (r: Self)
        ensures
            r.commands() == seq!["!crate"@, "!crates"@],
    {
        let mut commands: Vec<&'static str> = Vec::new();
        commands.push("!crate");
        commands.push("!crates");
        RustStuff { commands }
    }

    /// The names of the commands the module answers.
    pub closed spec fn commands(&self) -> Seq<Seq<char>> {
        self.commands@.map_values(|c: &str| c@)
    }

    /// The crates.io search that looks up the crate `query`.
    pub fn crate_url(query: &str) -> (r: String)
        ensures
            r@ == "https://crates.io/api/v1/crates?page=1&per_page=1&q="@ + query@,
    {
        let mut url = String::from_str("https://crates.io/api/v1/crates?page=1&per_page=1&q=");
        url.append(query);
        url
    }

    /// The crate a search found: the last one listed, or `NoMatches` when none is.
    pub fn pick_crate(crates: Vec<Crate>) -> (r: Result<Crate, CrateError>)
        ensures
            match r {
                Ok(c) => crates@.len() > 0 && c == crates@.last(),
                Err(e) => crates@.len() == 0 && e == CrateError::NoMatches,
            },
    {
        let mut crates = crates;
        match crates.pop() {
            Some(c) => Ok(c),
            None => Err(CrateError::NoMatches),
        }
    }

    /// The answer to `!crate query`, given what looking up `query` (the request's
    /// arguments) gave: the crate's line, a reply that nothing matched, or nothing when
    /// the lookup failed.
    pub fn crates_command(&mut self, req: &Request, lookup: Result<Crate, CrateError>) -> (r:
        Option<Response>)
        ensures
            match lookup {
                Ok(c) => r matches Some(Response::Say { data }) && data@ == crate_line(c),
                Err(CrateError::NoMatches) => r matches Some(Response::Reply { data }) && data@
                    == "I couldn't find a crate matching '"@ + req@.args + "'"@,
                Err(_) => r is None,
            },
    {
        match lookup {
            Ok(c) => {
                let mut s = String::new();
                s.append(c.name.as_str());
                s.append(" = ");
                s.append(c.max_version.as_str());
                s.append(" @ ");
                s.append(c.repository.as_str());
                s.append(" \"");
                let d = flatten_description(c.description.as_str());
                s.append(d.as_str());
                s.append("\"");
                Some(Response::Say { data: s })
            },
            Err(CrateError::NoMatches) => {
                let mut s = String::from_str("I couldn't find a crate matching '");
                s.append(req.args());
                s.append("'");
                Some(Response::Reply { data: s })
            },
            Err(_) => None,
        }
    }
}


/// The line said about a found crate reads `name = version @ repository "description"`:
/// its name, then its newest version, then where its source is, then its description on
/// one line (newlines as spaces, trailing whitespace removed) in double quotes.
pub proof fn law_crate_line_layout(c: Crate)
    ensures
        crate_line(c) == c.name@ + seq![' ', '=', ' '] + c.max_version@ + seq![' ', '@', ' ']
            + c.repository@ + seq![' ', '"'] + rtrim(
            c.description@.map_values(|ch: char| if ch == '\n' { ' ' } else { ch }),
        ) + seq!['"'],
{
    reveal_strlit(" = ");
    reveal_strlit(" @ ");
    reveal_strlit(" \"");
    reveal_strlit("\"");
    assert(" = "@ =~= seq![' ', '=', ' ']);
    assert(" @ "@ =~= seq![' ', '@', ' ']);
    assert(" \""@ =~= seq![' ', '"']);
    assert("\""@ =~= seq!['"']);
}
} // verus!
