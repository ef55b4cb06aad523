//! Choosing the templates that can be offered from the configurations found.
use vstd::prelude::*;

use crate::config::{Config, Template};
use crate::errors::LoadError;
use crate::helpers::{config_unknowns, unknown_command_message, validateConfig};

verus! {

/// A template directory that holds an `init-anything.json`: the directory,
/// the configuration file, and what parsing that file gave.
pub struct TemplateCandidate {
    pub path: String,
    pub configPath: String,
    pub parsed: Result<Config, String>,
}

/// What is wrong with a candidate: its configuration did not parse, or it
/// names a command it does not have.
pub open spec fn candidate_error(c: TemplateCandidate) -> Option<Seq<char>> {
    match c.parsed {
        Err(m) => Some(m@),
        Ok(cfg) => if config_unknowns(cfg).len() == 0 {
            None
        } else {
            Some(unknown_command_message(config_unknowns(cfg)[0]))
        },
    }
}

/// The index of the first candidate that is wrong.
pub open spec fn first_bad(cs: Seq<TemplateCandidate>) -> Option<int>
    decreases cs.len(),
{
    if cs.len() == 0 {
        None
    } else {
        match first_bad(cs.drop_last()) {
            Some(k) => Some(k),
            None => if candidate_error(cs.last()) is Some {
                Some(cs.len() - 1)
            } else {
                None
            },
        }
    }
}

proof fn lemma_first_bad_prefix(cs: Seq<TemplateCandidate>, j: int)
    requires
        0 <= j <= cs.len(),
        first_bad(cs.take(j)) is Some,
    ensures
        first_bad(cs) == first_bad(cs.take(j)),
    decreases cs.len() - j,
{
    if j == cs.len() {
        assert(cs.take(j) =~= cs);
    } else {
        assert(cs.take(j + 1).drop_last() =~= cs.take(j));
        lemma_first_bad_prefix(cs, j + 1);
    }
}

/// The templates to offer, in the order found: fails on the first candidate
/// whose configuration did not parse or does not validate, naming its file,
/// and when there is no candidate at all.
pub fn collectTemplates(candidates: Vec<TemplateCandidate>) -> (r: Result<Vec<Template>, LoadError>)
    ensures
        match first_bad(candidates@) {
            Some(k) => r matches Err(e) && Some(e.message@) == candidate_error(candidates@[k])
                && e.configPath.deep_view() == Some(candidates@[k].configPath@),
            None => if candidates.len() == 0 {
                r matches Err(e) && e.message@ == "No init-anything.json files found"@
                    && e.configPath is None
            } else {
                r matches Ok(ts) && ts.len() == candidates.len() && forall|k: int|
                    0 <= k < ts.len() ==> (#[trigger] ts[k]).path == candidates@[k].path
                        && candidates@[k].parsed == Ok::<Config, String>(ts[k].config)
                        && config_unknowns(ts[k].config).len() == 0
            },
        },
{
    let ghost all = candidates@;
    let mut rest = candidates;
    let n = rest.len();
    let mut templates: Vec<Template> = Vec::new();
    let mut i: usize = 0;
    assert(all.take(0) =~= Seq::<TemplateCandidate>::empty());
    assert(rest@ =~= all.skip(0));
    while i < n
        invariant
            n == all.len(),
            all == candidates@,
            i <= n,
            rest@ == all.skip(i as int),
            first_bad(all.take(i as int)) is None,
            templates.len() == i,
            forall|k: int|
                0 <= k < i ==> (#[trigger] templates[k]).path == all[k].path && all[k].parsed
                    == Ok::<Config, String>(templates[k].config) && config_unknowns(templates[k].config).len() == 0,
        decreases n - i,
    {
        let c = rest.remove(0);
        assert(c == all[i as int]);
        assert(rest@ =~= all.skip(i + 1));
        proof {
            assert(all.take(i + 1).drop_last() =~= all.take(i as int));
            assert(all.take(i + 1).last() == c);
            if candidate_error(c) is Some {
                lemma_first_bad_prefix(all, i + 1);
            }
        }
        match c.parsed {
            Err(message) => {
                assert(first_bad(all) == Some(i as int));
                assert(candidate_error(all[i as int]) == Some(message@));
                return Err(LoadError { message, configPath: Some(c.configPath) });
            },
            Ok(config) => {
                match validateConfig(&config) {
                    Ok(()) => {
                        templates.push(Template { config, path: c.path });
                    },
                    Err(x) => {
                        assert(first_bad(all) == Some(i as int));
                        assert(candidate_error(all[i as int]) == Some(x.message@));
                        return Err(LoadError { message: x.message, configPath: Some(c.configPath) });
                    },
                }
            },
        }
        i = i + 1;
    }
    assert(all.take(n as int) =~= all);
    if templates.len() == 0 {
        return Err(
            LoadError {
                message: String::from_str("No init-anything.json files found"),
                configPath: None,
            },
        );
    }
    Ok(templates)
}

} // verus!
