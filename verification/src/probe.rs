//! The format probe: find which pattern set applies to a file by scanning
//! its lines for a version banner.
use vstd::prelude::*;

use crate::{Error, Version};
use crate::catalog::{CatalogEntry, patterns_for_version};
use crate::patterns::{Pattern, regex_group, regex_ok};
use crate::version::{coerced_version_text, parse_version_capture, range_contains, spec_parse_version};

verus! {

/// Whether the version pattern of one scan position matches its line: the
/// probe walks entries outermost, then lines, then platforms.
pub open spec fn probe_hit(
    catalog: Seq<CatalogEntry>,
    lines: Seq<String>,
    e: int,
    l: int,
    p: int,
) -> bool {
    &&& 0 <= e < catalog.len()
    &&& 0 <= l < lines.len()
    &&& 0 <= p < catalog[e].set.platforms@.len()
    &&& regex_group(
        catalog[e].set.platforms@[p].version_regex@,
        lines[l]@,
        "ver"@,
    ) is Some
}

/// No scan position strictly before the given one matches.
pub open spec fn no_hit_before(
    catalog: Seq<CatalogEntry>,
    lines: Seq<String>,
    e: int,
    l: int,
    p: int,
) -> bool {
    forall|e2: int, l2: int, p2: int|
        (e2 < e || (e2 == e && (l2 < l || (l2 == l && p2 < p)))) ==> !#[trigger] probe_hit(
            catalog,
            lines,
            e2,
            l2,
            p2,
        )
}

/// The version text the scan position captures.
pub open spec fn hit_capture(catalog: Seq<CatalogEntry>, lines: Seq<String>, e: int, l: int, p: int) -> Seq<char> {
    regex_group(catalog[e].set.platforms@[p].version_regex@, lines[l]@, "ver"@)->0
}

/// What the probe found: the catalog row, the platform within it, the
/// line that named the version, and the version itself.
pub struct ProbeResult {
    pub entry: usize,
    pub platform: usize,
    pub line: usize,
    pub version: Version,
}

/// Scan every line against every pattern set's platform version regexes,
/// in catalog order. The first match names the version (with the `3.2`
/// coercion); the version then picks the right catalog row, and the
/// matching platform inside it is rediscovered on the same line.
///
/// `origin` only labels the `NotLogs` error.
pub fn patterns_for_lines(
    catalog: &Vec<CatalogEntry>,
    lines: &Vec<String>,
    origin: &str,
) -> (r: Result<ProbeResult, Error>)
    ensures
        match r {
            Ok(p) => {
                &&& p.entry < catalog@.len()
                &&& range_contains(
                    catalog@[p.entry as int].from,
                    catalog@[p.entry as int].to,
                    p.version,
                )
                &&& p.platform < catalog@[p.entry as int].set.platforms@.len()
                &&& regex_group(
                    catalog@[p.entry as int].set.platforms@[p.platform as int].version_regex@,
                    lines@[p.line as int]@,
                    "ver"@,
                ) is Some
                &&& exists|e: int, l: int, pp: int|
                    {
                        &&& #[trigger] probe_hit(catalog@, lines@, e, l, pp)
                        &&& no_hit_before(catalog@, lines@, e, l, pp)
                        &&& l == p.line
                        &&& spec_parse_version(
                            coerced_version_text(hit_capture(catalog@, lines@, e, l, pp)),
                        ) == Some(p.version)
                    }
            },
            Err(e) => match e {
                Error::NotLogs(o) => o@ == origin@ && forall|e2: int, l2: int, p2: int|
                    !#[trigger] probe_hit(catalog@, lines@, e2, l2, p2),
                Error::UnsupportedVersion(v) => {
                    &&& exists|e: int, l: int, pp: int|
                        {
                            &&& #[trigger] probe_hit(catalog@, lines@, e, l, pp)
                            &&& no_hit_before(catalog@, lines@, e, l, pp)
                            &&& spec_parse_version(
                                coerced_version_text(hit_capture(catalog@, lines@, e, l, pp)),
                            ) == Some(v)
                        }
                    &&& forall|j: int|
                        0 <= j < catalog@.len() ==> !range_contains(
                            (#[trigger] catalog@[j]).from,
                            catalog@[j].to,
                            v,
                        )
                },
                Error::UnsupportedPlatform(lr) => exists|e: int, l: int, pp: int|
                    {
                        &&& #[trigger] probe_hit(catalog@, lines@, e, l, pp)
                        &&& no_hit_before(catalog@, lines@, e, l, pp)
                        &&& lr@ == lines@[l]@
                        &&& match spec_parse_version(
                            coerced_version_text(hit_capture(catalog@, lines@, e, l, pp)),
                        ) {
                            Some(ver) => exists|j: int|
                                0 <= j < catalog@.len() && #[trigger] range_contains(
                                    catalog@[j].from,
                                    catalog@[j].to,
                                    ver,
                                ) && forall|p2: int|
                                    0 <= p2 < catalog@[j].set.platforms@.len() ==> regex_group(
                                        (#[trigger] catalog@[j].set.platforms@[p2]).version_regex@,
                                        lines@[l]@,
                                        "ver"@,
                                    ) is None,
                            None => false,
                        }
                    },
                Error::CannotParse(_) => {
                    ||| exists|e: int, pp: int|
                        0 <= e < catalog@.len() && 0 <= pp < catalog@[e].set.platforms@.len()
                            && !regex_ok((#[trigger] catalog@[e].set.platforms@[pp]).version_regex@)
                    ||| exists|e: int, l: int, pp: int|
                        {
                            &&& #[trigger] probe_hit(catalog@, lines@, e, l, pp)
                            &&& no_hit_before(catalog@, lines@, e, l, pp)
                            &&& spec_parse_version(
                                coerced_version_text(hit_capture(catalog@, lines@, e, l, pp)),
                            ) is None
                        }
                },
                _ => false,
            },
        },
{
    let mut ei: usize = 0;
    while ei < catalog.len()
        invariant
            no_hit_before(catalog@, lines@, ei as int, 0, 0),
        decreases catalog@.len() - ei,
    {
        let set = &catalog[ei].set;
        let mut li: usize = 0;
        while li < lines.len()
            invariant
                ei < catalog@.len(),
                set == &catalog@[ei as int].set,
                no_hit_before(catalog@, lines@, ei as int, li as int, 0),
            decreases lines@.len() - li,
        {
            let line = &lines[li];
            let mut pi: usize = 0;
            while pi < set.platforms.len()
                invariant
                    ei < catalog@.len(),
                    li < lines@.len(),
                    set == &catalog@[ei as int].set,
                    line@ == lines@[li as int]@,
                    no_hit_before(catalog@, lines@, ei as int, li as int, pi as int),
                decreases set.platforms@.len() - pi,
            {
                let platform = &set.platforms[pi];
                let re = match Pattern::compile(platform.version_regex) {
                    Some(p) => p,
                    None => {
                        return Err(
                            Error::CannotParse(String::from_str("Invalid version pattern")),
                        );
                    },
                };
                match re.group(line.as_str(), "ver") {
                    Some(cap) => {
                        proof {
                            assert(probe_hit(catalog@, lines@, ei as int, li as int, pi as int));
                        }
                        // the first matching line fixes the version
                        let version = match parse_version_capture(&cap) {
                            Some(v) => v,
                            None => {
                                return Err(
                                    Error::CannotParse(
                                        String::from_str("Version capture is not a version"),
                                    ),
                                );
                            },
                        };
                        match probe_with_version(catalog, line, version) {
                            Ok(p) => {
                                let out = ProbeResult {
                                    entry: p.entry,
                                    platform: p.platform,
                                    line: li,
                                    version: p.version,
                                };
                                proof {
                                    assert(line@ == lines@[li as int]@);
                                }
                                return Ok(out);
                            },
                            Err(e) => {
                                return Err(e);
                            },
                        }
                    },
                    None => {},
                }
                proof {
                    assert(no_hit_before(
                        catalog@,
                        lines@,
                        ei as int,
                        li as int,
                        pi + 1,
                    )) by {
                        assert(!probe_hit(catalog@, lines@, ei as int, li as int, pi as int));
                    }
                }
                pi = pi + 1;
            }
            proof {
                assert(no_hit_before(catalog@, lines@, ei as int, li + 1, 0)) by {
                    assert(forall|p2: int|
                        p2 >= set.platforms@.len() ==> !#[trigger] probe_hit(
                            catalog@,
                            lines@,
                            ei as int,
                            li as int,
                            p2,
                        ));
                }
            }
            li = li + 1;
        }
        proof {
            assert(no_hit_before(catalog@, lines@, ei + 1, 0, 0)) by {
                assert(forall|l2: int, p2: int|
                    l2 >= lines@.len() ==> !#[trigger] probe_hit(
                        catalog@,
                        lines@,
                        ei as int,
                        l2,
                        p2,
                    ));
            }
        }
        ei = ei + 1;
    }
    proof {
        assert(forall|e2: int, l2: int, p2: int|
            !#[trigger] probe_hit(catalog@, lines@, e2, l2, p2)) by {
            assert(forall|e2: int, l2: int, p2: int|
                e2 >= catalog@.len() ==> !#[trigger] probe_hit(catalog@, lines@, e2, l2, p2));
        }
    }
    Err(Error::NotLogs(origin.to_owned()))
}

/// A match under one set's regexes may still name a version of another
/// range: look the version up, then rediscover the platform by re-scanning
/// the same line under the right set.
fn probe_with_version(catalog: &Vec<CatalogEntry>, line: &String, version: Version) -> (r: Result<
    ProbeResult,
    Error,
>)
    ensures
        match r {
            Ok(p) => {
                &&& p.entry < catalog@.len()
                &&& range_contains(
                    catalog@[p.entry as int].from,
                    catalog@[p.entry as int].to,
                    p.version,
                )
                &&& p.platform < catalog@[p.entry as int].set.platforms@.len()
                &&& regex_group(
                    catalog@[p.entry as int].set.platforms@[p.platform as int].version_regex@,
                    line@,
                    "ver"@,
                ) is Some
                &&& p.version == version
            },
            Err(e) => match e {
                Error::UnsupportedVersion(v) => v == version && forall|j: int|
                    0 <= j < catalog@.len() ==> !range_contains(
                        (#[trigger] catalog@[j]).from,
                        catalog@[j].to,
                        version,
                    ),
                Error::UnsupportedPlatform(lr) => lr@ == line@ && exists|j: int|
                    0 <= j < catalog@.len() && #[trigger] range_contains(
                        catalog@[j].from,
                        catalog@[j].to,
                        version,
                    ) && forall|p2: int|
                        0 <= p2 < catalog@[j].set.platforms@.len() ==> regex_group(
                            (#[trigger] catalog@[j].set.platforms@[p2]).version_regex@,
                            line@,
                            "ver"@,
                        ) is None,
                Error::CannotParse(_) => exists|e: int, pp: int|
                    0 <= e < catalog@.len() && 0 <= pp < catalog@[e].set.platforms@.len()
                        && !regex_ok((#[trigger] catalog@[e].set.platforms@[pp]).version_regex@),
                _ => false,
            },
        },
{
    let ei = match patterns_for_version(catalog, &version) {
        Ok(i) => i,
        Err(e) => {
            return Err(e);
        },
    };
    let set = &catalog[ei].set;
    let mut pi: usize = 0;
    while pi < set.platforms.len()
        invariant
            ei < catalog@.len(),
            range_contains(catalog@[ei as int].from, catalog@[ei as int].to, version),
            set == &catalog@[ei as int].set,
            forall|p2: int|
                0 <= p2 < pi ==> regex_group(
                    (#[trigger] catalog@[ei as int].set.platforms@[p2]).version_regex@,
                    line@,
                    "ver"@,
                ) is None,
        decreases set.platforms@.len() - pi,
    {
        let platform = &set.platforms[pi];
        let re = match Pattern::compile(platform.version_regex) {
            Some(p) => p,
            None => {
                return Err(Error::CannotParse(String::from_str("Invalid version pattern")));
            },
        };
        match re.group(line.as_str(), "ver") {
            Some(_) => {
                return Ok(ProbeResult { entry: ei, platform: pi, line: 0, version });
            },
            None => {},
        }
        pi = pi + 1;
    }
    Err(Error::UnsupportedPlatform(line.clone()))
}

} // verus!
