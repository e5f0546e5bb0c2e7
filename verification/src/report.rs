//! The records a diagnostic run produces: one pass/fail item per check, and
//! the report that gathers them with the cleaned and the raw log text.

use vstd::prelude::*;

verus! {

/// One entry of the summary section of a diagnostic report.
pub struct CheckItem {
    /// `"PASS"` or `"FAIL"`.
    pub status: String,
    /// The name of the check, or of the plugin class that failed to load.
    pub name: String,
    /// The text after the check's name on its summary line.
    pub description: String,
    /// The accumulated detail log for the check, empty if there is none.
    pub details: String,
}

/// The mathematical value of a `CheckItem`: its fields as character
/// sequences.
pub ghost struct CheckItemV {
    pub status: Seq<char>,
    pub name: Seq<char>,
    pub description: Seq<char>,
    pub details: Seq<char>,
}

impl View for CheckItem {
    type V = CheckItemV;

    open spec fn view(&self) -> CheckItemV {
        CheckItemV {
            status: self.status@,
            name: self.name@,
            description: self.description@,
            details: self.details@,
        }
    }
}

/// The parsed result of one diagnostic run.
pub struct SystemCheckReport {
    /// The pass/fail items of the summary section, in the order their lines
    /// appear.
    pub summary: Vec<CheckItem>,
    /// The detailed section, cleaned of control sequences and artifacts.
    pub detailed: String,
    /// The text window between the start and end markers, unmodified.
    pub raw: String,
}

/// The mathematical value of a `SystemCheckReport`.
pub ghost struct SystemCheckReportV {
    pub summary: Seq<CheckItemV>,
    pub detailed: Seq<char>,
    pub raw: Seq<char>,
}

impl View for SystemCheckReport {
    type V = SystemCheckReportV;

    open spec fn view(&self) -> SystemCheckReportV {
        SystemCheckReportV {
            summary: Seq::new(self.summary@.len(), |i: int| self.summary@[i]@),
            detailed: self.detailed@,
            raw: self.raw@,
        }
    }
}

} // verus!
