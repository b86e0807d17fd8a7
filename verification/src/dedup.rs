//! What a scan's result amounts to, and the action carried out over all
//! its groups.

use crate::actions::{
    perform_action, possible_outcome, ActionResult, FileOperationView, FsReply, FsRequest,
};
use crate::utils::texts_view;
use crate::{
    duplicate_count, duplicates_of, groups_consistent, lemma_duplicates_bounded,
    lemma_sum_le, lemma_sum_prefix, sum_groups, wasted_space, waste_of, DedupAction,
    DedupResult, FileInfoView,
};
use vstd::prelude::*;

verus! {

/// The largest size, in bytes, of a small file.
pub const SMALL_FILE_MAX: u64 = 1024;

/// The largest size, in bytes, of a medium file.
pub const MEDIUM_FILE_MAX: u64 = 1048576;

/// Analysis results for duplicate files
#[derive(Debug)]
pub struct DedupAnalysis {
    /// The number of groups that hold duplicates.
    pub total_groups: usize,
    /// The number of redundant copies.
    pub total_duplicates: usize,
    /// The bytes that the redundant copies occupy.
    pub total_wasted_space: u64,
    /// The redundant copies of at most 1 KiB.
    pub small_files: usize,
    /// The redundant copies of more than 1 KiB and at most 1 MiB.
    pub medium_files: usize,
    /// The redundant copies of more than 1 MiB.
    pub large_files: usize,
    /// The keeper's path of the group that wastes the most, and the bytes
    /// that it wastes.
    pub largest_waste: (String, u64),
}

/// The mathematical value of a [`DedupAnalysis`].
pub struct DedupAnalysisView {
    pub total_groups: nat,
    pub total_duplicates: nat,
    pub total_wasted_space: nat,
    pub small_files: nat,
    pub medium_files: nat,
    pub large_files: nat,
    pub largest_waste: (Seq<char>, nat),
}

impl View for DedupAnalysis {
    type V = DedupAnalysisView;

    open spec fn view(&self) -> DedupAnalysisView {
        DedupAnalysisView {
            total_groups: self.total_groups as nat,
            total_duplicates: self.total_duplicates as nat,
            total_wasted_space: self.total_wasted_space as nat,
            small_files: self.small_files as nat,
            medium_files: self.medium_files as nat,
            large_files: self.large_files as nat,
            largest_waste: (self.largest_waste.0@, self.largest_waste.1 as nat),
        }
    }
}

/// The analysis of no groups.
pub open spec fn empty_analysis() -> DedupAnalysisView {
    DedupAnalysisView {
        total_groups: 0,
        total_duplicates: 0,
        total_wasted_space: 0,
        small_files: 0,
        medium_files: 0,
        large_files: 0,
        largest_waste: (Seq::<char>::empty(), 0),
    }
}

/// One for a group that holds duplicates, nothing for any other.
pub open spec fn counted_of() -> spec_fn(Seq<FileInfoView>) -> nat {
    |g: Seq<FileInfoView>|
        if g.len() > 1 {
            1nat
        } else {
            0nat
        }
}

/// The redundant copies of a group of small files.
pub open spec fn small_of() -> spec_fn(Seq<FileInfoView>) -> nat {
    |g: Seq<FileInfoView>|
        if g.len() > 1 && g[0].size <= SMALL_FILE_MAX {
            (g.len() - 1) as nat
        } else {
            0nat
        }
}

/// The redundant copies of a group of medium files.
pub open spec fn medium_of() -> spec_fn(Seq<FileInfoView>) -> nat {
    |g: Seq<FileInfoView>|
        if g.len() > 1 && SMALL_FILE_MAX < g[0].size <= MEDIUM_FILE_MAX {
            (g.len() - 1) as nat
        } else {
            0nat
        }
}

/// The redundant copies of a group of large files.
pub open spec fn large_of() -> spec_fn(Seq<FileInfoView>) -> nat {
    |g: Seq<FileInfoView>|
        if g.len() > 1 && g[0].size > MEDIUM_FILE_MAX {
            (g.len() - 1) as nat
        } else {
            0nat
        }
}

/// The group that wastes the most: its keeper's path and the bytes that it
/// wastes. Of several that waste the same, the first; where no group
/// wastes anything, an empty path and nothing.
pub open spec fn largest_waste(groups: Seq<Seq<FileInfoView>>) -> (Seq<char>, nat)
    decreases groups.len(),
{
    if groups.len() == 0 {
        (Seq::<char>::empty(), 0nat)
    } else {
        let before = largest_waste(groups.drop_last());
        if waste_of()(groups.last()) > before.1 {
            (groups.last()[0].path, waste_of()(groups.last()))
        } else {
            before
        }
    }
}

/// What the groups of a scan amount to.
pub open spec fn analysis_of(groups: Seq<Seq<FileInfoView>>) -> DedupAnalysisView {
    DedupAnalysisView {
        total_groups: sum_groups(groups, counted_of()),
        total_duplicates: duplicate_count(groups),
        total_wasted_space: wasted_space(groups),
        small_files: sum_groups(groups, small_of()),
        medium_files: sum_groups(groups, medium_of()),
        large_files: sum_groups(groups, large_of()),
        largest_waste: largest_waste(groups),
    }
}

impl DedupAnalysis {
    /// The analysis of no groups.
    pub fn new() -> (res: Self)
        ensures
            res@ == empty_analysis(),
    {
        Self {
            total_groups: 0,
            total_duplicates: 0,
            total_wasted_space: 0,
            small_files: 0,
            medium_files: 0,
            large_files: 0,
            largest_waste: (String::new(), 0),
        }
    }
}

/// The number of redundant copies above which links are recommended.
pub const MANY_DUPLICATES: usize = 100;

/// The wasted bytes above which the savings count as significant.
pub const MUCH_WASTE: u64 = 1_000_000_000;

/// What is recommended on an analysis: what to begin with where there are
/// large files, links where there are many copies, a word on the savings
/// where they are large, and two cautions that are always given.
pub open spec fn recommendations_of(analysis: DedupAnalysisView) -> Seq<Seq<char>> {
    (if analysis.large_files > 0 {
        seq!["Focus on large files first for maximum space savings"@]
    } else {
        Seq::<Seq<char>>::empty()
    }) + (if analysis.total_duplicates > MANY_DUPLICATES {
        seq!["Consider using hardlinks to save space without losing data"@]
    } else {
        Seq::<Seq<char>>::empty()
    }) + (if analysis.total_wasted_space > MUCH_WASTE {
        seq!["Significant space savings possible (>1GB)"@]
    } else {
        Seq::<Seq<char>>::empty()
    }) + seq![
        "Always use --dry-run first to preview changes"@,
        "Consider backing up important files before deletion"@,
    ]
}

impl DedupAnalysis {
    /// What is recommended on this analysis, line by line.
    pub fn recommendations(&self) -> (res: Vec<String>)
        ensures
            texts_view(res@) == recommendations_of(self@),
    {
        let mut res: Vec<String> = Vec::new();
        if self.large_files > 0 {
            res.push(String::from_str("Focus on large files first for maximum space savings"));
        }
        if self.total_duplicates > MANY_DUPLICATES {
            res.push(
                String::from_str("Consider using hardlinks to save space without losing data"),
            );
        }
        if self.total_wasted_space > MUCH_WASTE {
            res.push(String::from_str("Significant space savings possible (>1GB)"));
        }
        res.push(String::from_str("Always use --dry-run first to preview changes"));
        res.push(String::from_str("Consider backing up important files before deletion"));
        assert(texts_view(res@) =~= recommendations_of(self@));
        res
    }
}

impl Default for DedupAnalysis {
    fn default() -> (res: Self)
        ensures
            res@ == empty_analysis(),
    {
        Self::new()
    }
}

/// Analyze the scan results: how many groups hold duplicates, how many
/// redundant copies there are and what they waste, how the copies fall
/// into small, medium and large files, and which group wastes the most.
pub fn analyze_duplicates(scan_result: &DedupResult) -> (res: DedupAnalysis)
    ensures
        res@ == analysis_of(scan_result@),
{
    let groups = scan_result.groups();
    let ghost all = scan_result@;
    proof {
        lemma_duplicates_bounded(all);
    }
    let mut analysis = DedupAnalysis::new();
    let mut i: usize = 0;
    proof {
        assert(all.take(0) =~= Seq::<Seq<FileInfoView>>::empty());
    }
    while i < groups.len()
        invariant
            i <= groups@.len(),
            all == crate::groups_view(groups@),
            groups_consistent(all),
            duplicate_count(all) <= usize::MAX,
            wasted_space(all) <= u64::MAX,
            analysis@ == analysis_of(all.take(i as int)),
            analysis.total_groups <= i,
        decreases groups@.len() - i,
    {
        proof {
            let part = all.take(i + 1);
            assert(part.drop_last() =~= all.take(i as int));
            assert(part.last() == all[i as int]);
            lemma_sum_prefix(all, i + 1, duplicates_of());
            lemma_sum_prefix(all, i + 1, waste_of());
            lemma_sum_le(part, small_of(), duplicates_of());
            lemma_sum_le(part, medium_of(), duplicates_of());
            lemma_sum_le(part, large_of(), duplicates_of());
            assert(crate::group_consistent(all[i as int]));
            assert(all[i as int][0] == groups@[i as int]@[0]@);
        }
        let files = &groups[i];
        if files.len() > 1 {
            let file_size = files[0].size;
            let copies = files.len() - 1;
            assert(file_size * copies == waste_of()(all[i as int]));
            let group_waste = file_size * (copies as u64);
            analysis.total_groups = analysis.total_groups + 1;
            analysis.total_duplicates = analysis.total_duplicates + copies;
            analysis.total_wasted_space = analysis.total_wasted_space + group_waste;
            if file_size <= SMALL_FILE_MAX {
                analysis.small_files = analysis.small_files + copies;
            } else if file_size <= MEDIUM_FILE_MAX {
                analysis.medium_files = analysis.medium_files + copies;
            } else {
                analysis.large_files = analysis.large_files + copies;
            }
            if group_waste > analysis.largest_waste.1 {
                analysis.largest_waste = (files[0].path.clone(), group_waste);
            }
        }
        i = i + 1;
    }
    assert(all.take(i as int) =~= all);
    analysis
}

/// The outcomes of the groups, one group after the other.
pub open spec fn all_operations(parts: Seq<Seq<FileOperationView>>) -> Seq<FileOperationView>
    decreases parts.len(),
{
    if parts.len() == 0 {
        Seq::<FileOperationView>::empty()
    } else {
        all_operations(parts.drop_last()) + parts.last()
    }
}

/// Perform deduplication on the scan results: the action is performed on
/// every group in turn, and the outcomes are gathered in that order.
/// Listing performs nothing. A failure in one group does not keep the
/// others from being processed.
pub fn perform_deduplication<F: Fn(FsRequest) -> FsReply>(
    scan_result: &DedupResult,
    action: &DedupAction,
    dry_run: bool,
    fs: &F,
) -> (res: ActionResult)
    requires
        forall|request: FsRequest| call_requires(*fs, (request,)),
    ensures
        exists|parts: Seq<Seq<FileOperationView>>|
            {
                &&& parts.len() == scan_result@.len()
                &&& forall|g: int|
                    0 <= g < parts.len() ==> possible_outcome(
                        *fs,
                        scan_result@[g],
                        action@,
                        dry_run,
                        #[trigger] parts[g],
                    )
                &&& res@ == all_operations(parts)
            },
        res@.len() == if action@ is List {
            0
        } else {
            duplicate_count(scan_result@)
        },
{
    let groups = scan_result.groups();
    let ghost all = scan_result@;
    let ghost mut parts = Seq::<Seq<FileOperationView>>::empty();
    let mut total = ActionResult::new();
    let mut i: usize = 0;
    proof {
        assert(all.take(0) =~= Seq::<Seq<FileInfoView>>::empty());
    }
    while i < groups.len()
        invariant
            i <= groups@.len(),
            all == crate::groups_view(groups@),
            groups_consistent(all),
            forall|request: FsRequest| call_requires(*fs, (request,)),
            parts.len() == i,
            forall|g: int|
                0 <= g < parts.len() ==> possible_outcome(
                    *fs,
                    all[g],
                    action@,
                    dry_run,
                    #[trigger] parts[g],
                ),
            total@ == all_operations(parts),
            total@.len() == if action@ is List {
                0
            } else {
                duplicate_count(all.take(i as int))
            },
        decreases groups@.len() - i,
    {
        let result = perform_action(groups[i].as_slice(), action, dry_run, fs);
        proof {
            let part = all.take(i + 1);
            assert(part.drop_last() =~= all.take(i as int));
            assert(part.last() == all[i as int]);
            assert(crate::group_consistent(all[i as int]));
            let further = parts.push(result@);
            assert(further.drop_last() =~= parts);
            assert forall|g: int| 0 <= g < further.len() implies possible_outcome(
                *fs,
                all[g],
                action@,
                dry_run,
                #[trigger] further[g],
            ) by {
                if g < parts.len() {
                    assert(further[g] == parts[g]);
                }
            }
            parts = further;
        }
        total.merge(result);
        i = i + 1;
    }
    assert(all.take(i as int) =~= all);
    total
}

} // verus!
