//! Findings, and the scanners that produce them.

use crate::text::texts;
use vstd::prelude::*;

verus! {

/// One occurrence of something a scanner looks for.
#[derive(Debug)]
pub struct Finding {
    pub finding_id: String,
    pub file_path: String,
    pub line_start: usize,
    pub line_end: usize,
    pub detector: String,
    pub vuln_type: String,
    pub severity: String,
    pub description: String,
    pub analysis_trail: Option<Vec<String>>,
    pub llm_output: Option<String>,
}

/// What a finding says, its id aside: the id is drawn at random for every
/// occurrence.
pub struct FindingView {
    pub file_path: Seq<char>,
    pub line_start: usize,
    pub line_end: usize,
    pub detector: Seq<char>,
    pub vuln_type: Seq<char>,
    pub severity: Seq<char>,
    pub description: Seq<char>,
    pub analysis_trail: Option<Seq<Seq<char>>>,
    pub llm_output: Option<Seq<char>>,
}

impl View for Finding {
    type V = FindingView;

    open spec fn view(&self) -> FindingView {
        FindingView {
            file_path: self.file_path@,
            line_start: self.line_start,
            line_end: self.line_end,
            detector: self.detector@,
            vuln_type: self.vuln_type@,
            severity: self.severity@,
            description: self.description@,
            analysis_trail: match self.analysis_trail {
                Some(t) => Some(texts(t@)),
                None => None,
            },
            llm_output: match self.llm_output {
                Some(t) => Some(t@),
                None => None,
            },
        }
    }
}

/// The contents of a list of findings.
pub open spec fn finding_views(v: Seq<Finding>) -> Seq<FindingView> {
    v.map_values(|f: Finding| f@)
}

/// Appending to a list of findings appends to its contents.
pub proof fn lemma_finding_views_push(v: Seq<Finding>, f: Finding)
    ensures
        finding_views(v.push(f)) == finding_views(v).push(f@),
{
    assert(finding_views(v.push(f)) =~= finding_views(v).push(f@));
}

/// Joining two lists of findings joins their contents.
pub proof fn lemma_finding_views_add(a: Seq<Finding>, b: Seq<Finding>)
    ensures
        finding_views(a + b) == finding_views(a) + finding_views(b),
{
    assert(finding_views(a + b) =~= finding_views(a) + finding_views(b));
}

/// `Uuid::new_v4` of the uuid crate, as text: a fresh random id. Nothing
/// is claimed of it.
#[verifier::external_body]
pub(crate) fn new_finding_id() -> (id: String) {
    uuid::Uuid::new_v4().to_string()
}

/// Something that looks through the text of a file for findings.
pub trait Scanner {
    /// What the scanner promises of its findings in a file with the given
    /// path and text. A scanner that says nothing promises nothing.
    open spec fn produces(&self, path: Seq<char>, content: Seq<char>, findings: Seq<Finding>) -> bool {
        true
    }

    /// The scanner's name.
    fn name(&self) -> String;

    /// The findings in the file at `path` with the text `content`.
    fn scan_file(&self, path: &str, content: &str) -> (findings: Vec<Finding>)
        ensures
            self.produces(path@, content@, findings@),
    ;
}

/// Whether `all` is made of the findings of the scanners, one run after
/// the other in order, each run keeping its scanner's promise.
pub open spec fn gathered<S: Scanner>(
    scanners: Seq<S>,
    path: Seq<char>,
    content: Seq<char>,
    all: Seq<Finding>,
) -> bool
    decreases scanners.len(),
{
    if scanners.len() == 0 {
        all.len() == 0
    } else {
        exists|k: int|
            #![trigger all.take(k)]
            0 <= k <= all.len() && gathered(scanners.drop_last(), path, content, all.take(k))
                && scanners.last().produces(path, content, all.skip(k))
    }
}

/// One more scanner's run behind a gathered list gives a gathered list.
pub proof fn lemma_gathered_step<S: Scanner>(
    scanners: Seq<S>,
    path: Seq<char>,
    content: Seq<char>,
    all: Seq<Finding>,
    k: int,
)
    requires
        scanners.len() > 0,
        0 <= k <= all.len(),
        gathered(scanners.drop_last(), path, content, all.take(k)),
        scanners.last().produces(path, content, all.skip(k)),
    ensures
        gathered(scanners, path, content, all),
{
}

/// A set of scanners that are run one after the other.
pub struct ScannerManager<S: Scanner> {
    scanners: Vec<S>,
}

impl<S: Scanner> ScannerManager<S> {
    /// The registered scanners, in the order of registration.
    pub closed spec fn registered(&self) -> Seq<S> {
        self.scanners@
    }

    /// A manager without scanners.
    pub fn new() -> (m: Self)
        ensures
            m.registered() == Seq::<S>::empty(),
    {
        ScannerManager { scanners: Vec::new() }
    }

    /// Registers one more scanner, behind those registered before.
    pub fn register_scanner(&mut self, scanner: S)
        ensures
            final(self).registered() == old(self).registered().push(scanner),
    {
        self.scanners.push(scanner);
    }

    /// How many scanners are registered.
    pub fn len(&self) -> (n: usize)
        ensures
            n == self.registered().len(),
    {
        self.scanners.len()
    }

    /// The findings of all registered scanners in one file, scanner after
    /// scanner in the order of registration.
    pub fn scan_file(&self, path: &str, content: &str) -> (all: Vec<Finding>)
        ensures
            gathered(self.registered(), path@, content@, all@),
    {
        let mut all: Vec<Finding> = Vec::new();
        let mut i: usize = 0;
        proof {
            assert(self.scanners@.take(0) =~= Seq::empty());
        }
        while i < self.scanners.len()
            invariant
                i <= self.scanners.len(),
                gathered(self.scanners@.take(i as int), path@, content@, all@),
            decreases self.scanners.len() - i,
        {
            let ghost before = all@;
            let mut found = self.scanners[i].scan_file(path, content);
            let ghost part = found@;
            all.append(&mut found);
            proof {
                let next = self.scanners@.take(i + 1);
                assert(next.drop_last() =~= self.scanners@.take(i as int));
                assert(next.last() == self.scanners@[i as int]);
                let k = before.len() as int;
                assert(all@.take(k) =~= before);
                assert(all@.skip(k) =~= part);
                assert(gathered(next.drop_last(), path@, content@, all@.take(k)));
                assert(next.last().produces(path@, content@, all@.skip(k)));
                lemma_gathered_step(next, path@, content@, all@, k);
            }
            i += 1;
        }
        proof {
            assert(self.scanners@.take(self.scanners.len() as int) =~= self.scanners@);
        }
        all
    }
}

} // verus!
