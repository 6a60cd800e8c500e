//! Rendering of the report that a successful run prints.

use vstd::prelude::*;
use vstd::string::StringExecFns;

use crate::config::Config;
use crate::config::ConfigV;
use crate::numbers::dec_rep;
use crate::numbers::push_char;
use crate::numbers::push_decimal;
use crate::stats::lemma_stats_deterministic;
use crate::stats::stats_for;
use crate::stats::Stats;

verus! {

/// The full text of the report: the file, the active filters, and the
/// statistics, one figure per line.
pub open spec fn spec_report(c: ConfigV, s: Stats) -> Seq<char> {
    "=== Text Analyzer Results ===\n"@ + "File: "@ + c.file_path + "\n"@ + "Filters Applied:\n"@
        + "  Minimum length: "@ + dec_rep(c.min_length as int) + "\n"@ + (match c.starts_with {
        Some(ch) => "  Starts with: "@ + seq![ch] + "\n"@,
        None => Seq::<char>::empty(),
    }) + "\nStats:\n"@ + "  Total word count: "@ + dec_rep(s.total_words as int) + "\n"@
        + "  Number of unique words: "@ + dec_rep(s.unique_words as int) + "\n"@
        + "  Average word length: "@ + dec_rep(s.average_length as int) + " chars\n"@ + (
    match s.most_common {
        Some(p) => "  Most common word: \""@ + p.0@ + "\" with count "@ + dec_rep(p.1 as int)
            + "\n"@,
        None => "  No words found.\n"@,
    })
}

/// Two runs over the same words under the same configuration render the
/// same report text.
pub proof fn lemma_report_deterministic(
    words: Seq<Seq<char>>,
    c: ConfigV,
    s1: Stats,
    s2: Stats,
)
    requires
        stats_for(words, s1),
        stats_for(words, s2),
    ensures
        spec_report(c, s1) == spec_report(c, s2),
{
    lemma_stats_deterministic(words, s1, s2);
}

/// Renders the report of a successful run.
pub fn render_report(config: &Config, s: &Stats) -> (r: String)
    ensures
        r@ == spec_report(config@, *s),
{
    let mut out = String::new();
    out.append("=== Text Analyzer Results ===\n");
    out.append("File: ");
    out.append(config.file_path.as_str());
    out.append("\n");
    out.append("Filters Applied:\n");
    out.append("  Minimum length: ");
    push_decimal(&mut out, config.min_length as u128);
    out.append("\n");
    match config.starts_with {
        Some(ch) => {
            out.append("  Starts with: ");
            push_char(&mut out, ch);
            out.append("\n");
        },
        None => {},
    }
    out.append("\nStats:\n");
    out.append("  Total word count: ");
    push_decimal(&mut out, s.total_words as u128);
    out.append("\n");
    out.append("  Number of unique words: ");
    push_decimal(&mut out, s.unique_words as u128);
    out.append("\n");
    out.append("  Average word length: ");
    push_decimal(&mut out, s.average_length as u128);
    out.append(" chars\n");
    match &s.most_common {
        Some(p) => {
            out.append("  Most common word: \"");
            out.append(p.0.as_str());
            out.append("\" with count ");
            push_decimal(&mut out, p.1 as u128);
            out.append("\n");
        },
        None => {
            out.append("  No words found.\n");
        },
    }
    proof {
        assert(out@ =~= spec_report(config@, *s));
    }
    out
}

} // verus!
