//! Parsing the lines of one log file into a per-owner aggregate.
//!
//! Every line is a URL such as `https://www.mysite.com/pixel.gif?o=123&v=2222&i=555`.
//! The owner parameter `o` must be present and numeric; the video-play
//! signal `v` and the ad-impression signal `i` are optional, and when one is
//! present its value must be numeric, though only its presence is counted.

use vstd::prelude::*;

verus! {

use crate::aggregate::Aggregate;
use crate::errors::LogParserError;
use crate::owner_usage::OwnerUsage;
use crate::owner_usage::lemma_owner_usage_eq;
use crate::query_string::get_query_string;
use crate::query_string::get_query_string_parameter_value;
use crate::query_string::spec_param_value;
use crate::query_string::spec_query_string;
use crate::text::parse_u32;
use crate::text::spec_parse_u32;
use crate::text::str_eq;
use crate::text::str_to_string;

broadcast use crate::owner_usage::lemma_make_fields;

/// Why a file's parse stopped, abstracted from the error value it reports.
pub enum ParseFailure {
    /// A line had no `?`, or nothing after it.
    MissingQuery,
    /// A query string had no `o=` parameter.
    MissingOwner,
    /// The owner parameter was present but not numeric.
    OwnerNotNumeric,
    /// The video parameter was present but not numeric.
    VideoNotNumeric,
    /// The ad parameter was present but not numeric.
    AdNotNumeric,
    /// The video plays counter stood at the maximum already.
    VideoOverflow,
    /// The ad impressions counter stood at the maximum already.
    AdOverflow,
}

/// The counter pair with one more video play.
pub open spec fn video_applied(u: OwnerUsage) -> OwnerUsage
    recommends
        u.spec_video_plays() < u32::MAX,
{
    OwnerUsage::make((u.spec_video_plays() + 1) as u32, u.spec_ad_impressions())
}

/// The counter pair with one more ad impression.
pub open spec fn ad_applied(u: OwnerUsage) -> OwnerUsage
    recommends
        u.spec_ad_impressions() < u32::MAX,
{
    OwnerUsage::make(u.spec_video_plays(), (u.spec_ad_impressions() + 1) as u32)
}

/// The ad-impression step of one line: owner `owner` already holds `u`
/// after the video step; apply the `i` signal of `qs` and store the result.
pub open spec fn process_ad_spec(
    m: Map<u32, OwnerUsage>,
    owner: u32,
    u: OwnerUsage,
    qs: Seq<char>,
) -> Result<Map<u32, OwnerUsage>, ParseFailure> {
    match spec_param_value(qs, 'i') {
        Some(it) => if spec_parse_u32(it) is None {
            Err(ParseFailure::AdNotNumeric)
        } else if u.spec_ad_impressions() == u32::MAX {
            Err(ParseFailure::AdOverflow)
        } else {
            Ok(m.insert(owner, ad_applied(u)))
        },
        None => Ok(m.insert(owner, u)),
    }
}

/// One line's effect given its query string `qs`: read the owner, then
/// apply the optional `v` and `i` signals to that owner's counters.
pub open spec fn process_query_spec(m: Map<u32, OwnerUsage>, qs: Seq<char>) -> Result<
    Map<u32, OwnerUsage>,
    ParseFailure,
> {
    match spec_param_value(qs, 'o') {
        None => Err(ParseFailure::MissingOwner),
        Some(owner_text) => match spec_parse_u32(owner_text) {
            None => Err(ParseFailure::OwnerNotNumeric),
            Some(owner) => {
                let u0 = if m.contains_key(owner) {
                    m[owner]
                } else {
                    OwnerUsage::make(0, 0)
                };
                match spec_param_value(qs, 'v') {
                    Some(vt) => if spec_parse_u32(vt) is None {
                        Err(ParseFailure::VideoNotNumeric)
                    } else if u0.spec_video_plays() == u32::MAX {
                        Err(ParseFailure::VideoOverflow)
                    } else {
                        process_ad_spec(m, owner, video_applied(u0), qs)
                    },
                    None => process_ad_spec(m, owner, u0, qs),
                }
            }
        },
    }
}

/// The effect of one log line on the aggregate built so far.
pub open spec fn process_line_spec(m: Map<u32, OwnerUsage>, line: Seq<char>) -> Result<
    Map<u32, OwnerUsage>,
    ParseFailure,
> {
    match spec_query_string(line) {
        None => Err(ParseFailure::MissingQuery),
        Some(qs) => process_query_spec(m, qs),
    }
}

/// The aggregate of a whole file: the lines folded in order over an empty
/// aggregate, stopping at the first failure.
pub open spec fn parse_lines_spec(lines: Seq<Seq<char>>) -> Result<
    Map<u32, OwnerUsage>,
    ParseFailure,
>
    decreases lines.len(),
{
    if lines.len() == 0 {
        Ok(Map::empty())
    } else {
        match parse_lines_spec(lines.drop_last()) {
            Ok(m) => process_line_spec(m, lines.last()),
            Err(e) => Err(e),
        }
    }
}

/// Once a prefix of the lines fails, the remaining lines change nothing.
proof fn lemma_parse_lines_prefix_err(lines: Seq<Seq<char>>, i: int)
    requires
        0 <= i <= lines.len(),
        parse_lines_spec(lines.take(i)) is Err,
    ensures
        parse_lines_spec(lines) == parse_lines_spec(lines.take(i)),
    decreases lines.len() - i,
{
    if i < lines.len() {
        assert(lines.take(i + 1).drop_last() =~= lines.take(i));
        lemma_parse_lines_prefix_err(lines, i + 1);
    } else {
        assert(lines.take(i) =~= lines);
    }
}

/// Which error value reports which failure.
pub open spec fn err_matches(e: LogParserError, k: ParseFailure) -> bool {
    match k {
        ParseFailure::MissingQuery => e matches LogParserError::Custom(m) && m@
            == "No query string found!"@,
        ParseFailure::MissingOwner => e matches LogParserError::Custom(m) && m@
            == "No owner id found in the query string!"@,
        ParseFailure::OwnerNotNumeric => e is ParseIntError,
        ParseFailure::VideoNotNumeric => e is ParseIntError,
        ParseFailure::AdNotNumeric => e is ParseIntError,
        ParseFailure::VideoOverflow => e matches LogParserError::Overflow(m) && m@
            == "Possible overflow occured when adding to the video_plays!"@,
        ParseFailure::AdOverflow => e matches LogParserError::Overflow(m) && m@
            == "Possible overflow occured when adding to the ad_impressions!"@,
    }
}

/// Parser for the lines of one log file.
pub struct LogParser<'a> {
    file_name: &'a str,
}

impl<'a> LogParser<'a> {
    /// The file this parser was created for, for contracts.
    pub closed spec fn spec_file_name(&self) -> Seq<char> {
        self.file_name@
    }

    /// Construct a parser for the log file called `file_name`.  The caller
    /// reads that file and hands the lines to `parse_lines`.
    pub fn new(file_name: &'a str) -> (r: Self)
        ensures
            r.spec_file_name() == file_name@,
    {
        Self { file_name }
    }

    /// For the usage parameter `parameter`, increase the counter named by
    /// `map_field` by 1.  A missing parameter is fine (not every line
    /// carries every signal); a present but non-numeric value, an unknown
    /// field name, and a counter at its maximum all yield `None`, and the
    /// counters change only in the one successful case.
    pub fn increment_hash_map_field(
        &self,
        owner_usage: &mut OwnerUsage,
        query_string: &str,
        parameter: &char,
        map_field: &str,
    ) -> (r: Option<()>)
        ensures
            match spec_param_value(query_string@, *parameter) {
                None => r == Some(()) && *final(owner_usage) == *old(owner_usage),
                Some(raw) => {
                    if spec_parse_u32(raw) is None {
                        r is None && *final(owner_usage) == *old(owner_usage)
                    } else if map_field@ == "video_plays"@ {
                        if old(owner_usage).spec_video_plays() < u32::MAX {
                            r == Some(()) && *final(owner_usage) == video_applied(
                                *old(owner_usage),
                            )
                        } else {
                            r is None && *final(owner_usage) == *old(owner_usage)
                        }
                    } else if map_field@ == "ad_impressions"@ {
                        if old(owner_usage).spec_ad_impressions() < u32::MAX {
                            r == Some(()) && *final(owner_usage) == ad_applied(*old(owner_usage))
                        } else {
                            r is None && *final(owner_usage) == *old(owner_usage)
                        }
                    } else {
                        r is None && *final(owner_usage) == *old(owner_usage)
                    }
                },
            },
    {
        if let Some(value) = get_query_string_parameter_value(query_string, parameter) {
            if parse_u32(value).is_some() {
                let add_result = if str_eq(map_field, "video_plays") {
                    let step = owner_usage.add_video_plays(1);
                    proof {
                        if old(owner_usage).spec_video_plays() < u32::MAX {
                            lemma_owner_usage_eq(*owner_usage, video_applied(*old(owner_usage)));
                        }
                    }
                    step
                } else if str_eq(map_field, "ad_impressions") {
                    let step = owner_usage.add_ad_impressions(1);
                    proof {
                        if old(owner_usage).spec_ad_impressions() < u32::MAX {
                            lemma_owner_usage_eq(*owner_usage, ad_applied(*old(owner_usage)));
                        }
                    }
                    step
                } else {
                    None
                };

                match add_result {
                    Some(_) => Some(()),
                    None => None,
                }
            } else {
                None
            }
        } else {
            Some(())
        }
    }

    /// Parse the raw lines of this parser's file, in file order, into the
    /// per-owner aggregate of that one file.  A line may keep its trailing
    /// line break.  The first malformed line, non-numeric value or counter
    /// overflow stops the parse with the matching error; no partial
    /// aggregate is returned.
    pub fn parse_lines(&self, lines: &Vec<String>) -> (r: Result<Aggregate, LogParserError>)
        ensures
            ({
                let s = parse_lines_spec(lines.deep_view());
                &&& (r is Ok <==> s is Ok)
                &&& (r matches Ok(agg) ==> agg.wf() && agg.as_map() == s->Ok_0)
                &&& (r matches Err(e) ==> err_matches(e, s->Err_0))
            }),
    {
        let ghost lseq = lines.deep_view();
        let mut agg = Aggregate::new();
        let n = lines.len();
        let mut idx: usize = 0;
        proof {
            assert(lseq.take(0) =~= Seq::<Seq<char>>::empty());
        }
        while idx < n
            invariant
                0 <= idx <= n,
                n == lines.len(),
                lseq == lines.deep_view(),
                agg.wf(),
                parse_lines_spec(lseq.take(idx as int)) == Ok::<
                    Map<u32, OwnerUsage>,
                    ParseFailure,
                >(agg.as_map()),
            decreases n - idx,
        {
            let ghost old_map = agg.as_map();
            let line = &lines[idx];
            proof {
                assert(lseq[idx as int] == line@);
                assert(lseq.take(idx + 1).drop_last() =~= lseq.take(idx as int));
                assert(lseq.take(idx + 1).last() == line@);
                assert(parse_lines_spec(lseq.take(idx + 1)) == process_line_spec(old_map, line@));
            }

            let qs = match get_query_string(line) {
                Some(q) => q,
                None => {
                    proof {
                        lemma_parse_lines_prefix_err(lseq, idx + 1);
                    }
                    return Err(
                        LogParserError::Custom(str_to_string("No query string found!")),
                    );
                }
            };

            let owner_text = match get_query_string_parameter_value(qs, &'o') {
                Some(t) => t,
                None => {
                    proof {
                        lemma_parse_lines_prefix_err(lseq, idx + 1);
                    }
                    return Err(
                        LogParserError::Custom(
                            str_to_string("No owner id found in the query string!"),
                        ),
                    );
                }
            };

            let owner_id = match parse_u32(owner_text) {
                Some(v) => v,
                None => {
                    proof {
                        lemma_parse_lines_prefix_err(lseq, idx + 1);
                    }
                    return Err(LogParserError::ParseIntError(str_to_string(owner_text)));
                }
            };

            let mut usage = match agg.get(owner_id) {
                Some(u) => u,
                None => OwnerUsage::default(),
            };
            let ghost u0 = usage;

            match get_query_string_parameter_value(qs, &'v') {
                Some(vt) => {
                    if parse_u32(vt).is_none() {
                        proof {
                            lemma_parse_lines_prefix_err(lseq, idx + 1);
                        }
                        return Err(LogParserError::ParseIntError(str_to_string(vt)));
                    }
                    if usage.add_video_plays(1).is_none() {
                        proof {
                            lemma_parse_lines_prefix_err(lseq, idx + 1);
                        }
                        return Err(
                            LogParserError::Overflow(
                                str_to_string(
                                    "Possible overflow occured when adding to the video_plays!",
                                ),
                            ),
                        );
                    }
                    proof {
                        lemma_owner_usage_eq(usage, video_applied(u0));
                    }
                }
                None => {}
            }
            let ghost u1 = usage;
            proof {
                assert(u1 == if spec_param_value(qs@, 'v') is Some {
                    video_applied(u0)
                } else {
                    u0
                });
            }

            match get_query_string_parameter_value(qs, &'i') {
                Some(it) => {
                    if parse_u32(it).is_none() {
                        proof {
                            lemma_parse_lines_prefix_err(lseq, idx + 1);
                        }
                        return Err(LogParserError::ParseIntError(str_to_string(it)));
                    }
                    if usage.add_ad_impressions(1).is_none() {
                        proof {
                            lemma_parse_lines_prefix_err(lseq, idx + 1);
                        }
                        return Err(
                            LogParserError::Overflow(
                                str_to_string(
                                    "Possible overflow occured when adding to the ad_impressions!",
                                ),
                            ),
                        );
                    }
                    proof {
                        lemma_owner_usage_eq(usage, ad_applied(u1));
                    }
                }
                None => {}
            }

            agg.set(owner_id, usage);
            proof {
                assert(process_line_spec(old_map, line@) == Ok::<
                    Map<u32, OwnerUsage>,
                    ParseFailure,
                >(agg.as_map()));
            }
            idx += 1;
        }
        proof {
            assert(lseq.take(n as int) =~= lseq);
        }
        Ok(agg)
    }
}

/// Law: a well-formed line touches exactly its own owner, and bumps each
/// counter by exactly 1 when the matching signal is present and by nothing
/// when it is absent, whatever numeric values the signals carry.
pub proof fn lemma_line_increments(m: Map<u32, OwnerUsage>, line: Seq<char>)
    requires
        process_line_spec(m, line) is Ok,
    ensures
        ({
            let qs = spec_query_string(line)->Some_0;
            let owner = spec_parse_u32(spec_param_value(qs, 'o')->Some_0)->Some_0;
            let prev = if m.contains_key(owner) {
                m[owner]
            } else {
                OwnerUsage::make(0, 0)
            };
            let result = process_line_spec(m, line)->Ok_0;
            &&& result.contains_key(owner)
            &&& result[owner].spec_video_plays() == prev.spec_video_plays() + (
            if spec_param_value(qs, 'v') is Some {
                1int
            } else {
                0int
            })
            &&& result[owner].spec_ad_impressions() == prev.spec_ad_impressions() + (
            if spec_param_value(qs, 'i') is Some {
                1int
            } else {
                0int
            })
            &&& forall|k: u32|
                k != owner ==> ((#[trigger] result.contains_key(k) <==> m.contains_key(k)) && (
                m.contains_key(k) ==> result[k] == m[k]))
        }),
{
}

} // verus!
