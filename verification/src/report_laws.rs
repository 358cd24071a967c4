//! Laws of the report on the whole hierarchy.

use crate::facts::{capped, host_regular_count, host_trailing_count};
use crate::hicache::SglangHiCacheReport;
use crate::hicache_model::HiCacheModel;
use crate::protocols::{RouterEvent, WorkerWithDpRank};
use vstd::prelude::*;

verus! {

/// Law: the total of resident groups is nothing without workers, and grows with
/// each rank by what that rank holds.
pub proof fn law_totals_count_every_rank(m: HiCacheModel, worker: WorkerWithDpRank)
    requires
        m.workers.dom().finite(),
    ensures
        m.workers.dom().len() == 0 ==> m.total_full_pages() == 0 && m.total_swa_pages() == 0,
        m.workers.contains_key(worker) ==> {
            let without = HiCacheModel { workers: m.workers.remove(worker), ..m };
            &&& m.total_full_pages() == without.total_full_pages() + host_regular_count(
                m.workers[worker],
            )
            &&& m.total_swa_pages() == without.total_swa_pages() + host_trailing_count(
                m.workers[worker],
            )
        },
{
    m.lemma_sums_step(Set::empty(), None);
    if m.workers.dom().len() == 0 {
        m.workers.dom().lemma_len0_is_empty();
    }
    if m.workers.contains_key(worker) {
        let without = HiCacheModel { workers: m.workers.remove(worker), ..m };
        let rest = m.workers.dom().remove(worker);
        m.lemma_sums_step(rest, Some(worker));
        assert(rest.insert(worker) =~= m.workers.dom());
        assert(without.workers.dom() =~= rest);
        lemma_sums_agree(m, without, rest);
    }
}

proof fn lemma_sums_agree(a: HiCacheModel, b: HiCacheModel, ranks: Set<WorkerWithDpRank>)
    requires
        ranks.finite(),
        forall|w: WorkerWithDpRank| #[trigger] ranks.contains(w) ==> a.workers[w] == b.workers[w],
    ensures
        a.full_sum(ranks) == b.full_sum(ranks),
        a.swa_sum(ranks) == b.swa_sum(ranks),
    decreases ranks.len(),
{
    if ranks.len() == 0 {
        ranks.lemma_len0_is_empty();
        a.lemma_sums_step(ranks, None);
        b.lemma_sums_step(ranks, None);
    } else {
        let w = ranks.choose();
        let fewer = ranks.remove(w);
        lemma_sums_agree(a, b, fewer);
        a.lemma_sums_step(fewer, Some(w));
        b.lemma_sums_step(fewer, Some(w));
        assert(fewer.insert(w) =~= ranks);
    }
}

/// Law: a report names the geometry and the configuration. The sizes of the parts
/// of a page add up to those of its groups, and these to that of the page. All
/// traffic with the host goes to it. What is not known here stands at zero.
pub proof fn law_report_adds_up(m: HiCacheModel, report: SglangHiCacheReport)
    requires
        report.shows(m),
    ensures
        report.geometry_id@ == "dsv4-flash-tp4-attn-cp4-fp32-v1"@,
        report.write_policy == m.config.write_policy,
        report.page_size_tokens == m.page_size,
        report.l1_swa_capacity_tokens_per_worker == m.config.l1_swa_capacity_tokens,
        report.l2_full_capacity_tokens_per_worker == m.config.l2_full_capacity_tokens,
        report.l2_swa_capacity_tokens_per_worker == m.config.l2_swa_capacity_tokens,
        report.io_tokens_per_second == m.config.io_tokens_per_second,
        report.regular_bytes_per_page == report.c4_bytes_per_page
            + report.c4_indexer_bytes_per_page + report.c128_bytes_per_page,
        report.trailing_bytes_per_page == report.swa_bytes_per_page
            + report.c4_state_bytes_per_page + report.c4_indexer_state_bytes_per_page,
        report.full_bundle_bytes_per_page == report.regular_bytes_per_page
            + report.trailing_bytes_per_page,
        report.c4_bytes_per_page == 786_240,
        report.c4_indexer_bytes_per_page == 177_408,
        report.c128_bytes_per_page == 34_560,
        report.swa_bytes_per_page == 6_439_680,
        report.c4_state_bytes_per_page == 1_376_256,
        report.c4_indexer_state_bytes_per_page == 344_064,
        report.workers_with_l2_state == m.workers.dom().len(),
        report.final_l2_full_pages == m.total_full_pages(),
        report.final_l2_swa_pages == m.total_swa_pages(),
        report.d2h_tokens == m.d2h_tokens,
        report.total_host_io_tokens == report.d2h_tokens + report.h2d_tokens,
        report.h2d_tokens == 0,
        report.route_input_tokens == 0,
        report.route_reused_tokens == 0,
        report.route_recomputed_tokens == 0,
        report.admission_input_tokens == 0,
        report.admission_reused_tokens == 0,
        report.admission_recomputed_tokens == 0,
        report.l3_prefetched_pages == m.l3_prefetched_pages,
        report.l3.shows(m.l3),
{
}

/// Law: between two reports, an event adds the traffic that it returns.
pub proof fn law_reports_count_the_traffic(
    m: HiCacheModel,
    event: RouterEvent,
    before: SglangHiCacheReport,
    after: SglangHiCacheReport,
)
    requires
        before.shows(m),
        after.shows(m.apply_event(event)),
    ensures
        after.d2h_tokens == capped(before.d2h_tokens + m.event_tokens(event)),
        after.l3_prefetched_pages == before.l3_prefetched_pages,
{
    m.lemma_after_event_frame(event);
}

} // verus!
