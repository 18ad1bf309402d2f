//! The bandwidth mutation engine.
//!
//! For two configurable resource keys — egress and ingress bandwidth — the
//! engine walks a pod's containers, reads the quantity declared for each
//! key in every container's `requests` and `limits` maps, and aggregates
//! pod-level totals. A quantity that is missing or fails to parse counts
//! as absent and never fails the request. Depending on the mode the engine
//! additionally strips the per-container fields or copies each request
//! over its limit, and it always records the totals as pod annotations and
//! marks the pod as processed.
//!
//! Totals are summed exactly on the fixed-point grid of
//! `quantity::SCALE_MAX` decimal places. A sum whose magnitude leaves the
//! machine range — which takes pod specs declaring quantities of some
//! hundred million yottabytes — is reported as an error and denies the
//! request rather than round.

use vstd::prelude::*;
use vstd::string::StringExecFns;
use crate::decimal::{dec_digits, format_quantity, format_spec, pow10_u128};
use crate::kvlist::{assoc_get, assoc_lookup, entries_view};
use crate::patch::{ops_view, PatchOp, PatchOpView, PatchValue, PatchValueView};
use crate::pod::{ContainerView, Pod, PodView};
use crate::pointer::{escape_json_pointer, escape_seq};
use crate::quantity::{parse, parse_result, pow10, Quantity, MANTISSA_LIMIT, SCALE_MAX};

verus! {

/// The three ways the engine may rewrite a pod.
#[derive(Debug, Clone, Copy, PartialEq, Eq, Structural)]
pub enum BandwidthMode {
    /// Only the pod-level total annotations are emitted.
    Annotate,
    /// Each successfully parsed per-container field is removed; the totals
    /// are still annotated.
    Strip,
    /// Wherever a container declares a key in both requests and limits,
    /// the limit is overwritten with the request by a copy operation.
    Overwrite,
}

/// The failure of the engine: a pod-level total left the representable
/// range while summing.
#[derive(Debug, Clone, Copy, PartialEq, Eq, Structural)]
pub enum BandwidthError {
    TotalOverflow,
}

pub open spec fn bandwidth_error_message(e: BandwidthError) -> Seq<char> {
    "total bandwidth exceeds the representable range"@
}

impl BandwidthError {
    /// The human-readable reason attached to a denial.
    pub fn message(&self) -> (r: String)
        ensures
            r@ == bandwidth_error_message(*self),
    {
        String::from_str("total bandwidth exceeds the representable range")
    }
}

// ---------------------------------------------------------------------------
// Paths and fixed annotation keys.
// ---------------------------------------------------------------------------

/// The annotation that marks a pod as processed by this webhook.
pub open spec fn marker_key() -> Seq<char> {
    "nba-admission"@
}

pub open spec fn annotations_path() -> Seq<char> {
    "/metadata/annotations"@
}

pub open spec fn marker_path() -> Seq<char> {
    "/metadata/annotations/nba-admission"@
}

pub open spec fn marker_value() -> Seq<char> {
    "true"@
}

pub open spec fn egress_request_annotation_path() -> Seq<char> {
    "/metadata/annotations/kubernetes.io~1egress-request"@
}

pub open spec fn ingress_request_annotation_path() -> Seq<char> {
    "/metadata/annotations/kubernetes.io~1ingress-request"@
}

pub open spec fn egress_limit_annotation_path() -> Seq<char> {
    "/metadata/annotations/kubernetes.io~1egress-bandwidth"@
}

pub open spec fn ingress_limit_annotation_path() -> Seq<char> {
    "/metadata/annotations/kubernetes.io~1ingress-bandwidth"@
}

/// The JSON Pointer path of a resource key in one container's requests.
pub open spec fn requests_path(idx: nat, key: Seq<char>) -> Seq<char> {
    "/spec/containers/"@ + dec_digits(idx) + "/resources/requests/"@ + escape_seq(key)
}

/// The JSON Pointer path of a resource key in one container's limits.
pub open spec fn limits_path(idx: nat, key: Seq<char>) -> Seq<char> {
    "/spec/containers/"@ + dec_digits(idx) + "/resources/limits/"@ + escape_seq(key)
}

// ---------------------------------------------------------------------------
// What the engine reads from a container.
// ---------------------------------------------------------------------------

/// The quantity a map declares behind a key: present exactly when the key
/// is there and its text parses.
pub open spec fn entry_quantity(m: Seq<(Seq<char>, Seq<char>)>, key: Seq<char>) -> Option<
    Quantity,
> {
    match assoc_lookup(m, key) {
        None => None,
        Some(text) => match parse_result(text) {
            Ok(q) => Some(q),
            Err(_) => None,
        },
    }
}

/// Is the pod already marked as processed?
pub open spec fn has_marker(pod: PodView) -> bool {
    match pod.annotations {
        Some(a) => assoc_lookup(a, marker_key()) is Some,
        None => false,
    }
}

/// The bookkeeping patches: create the annotations map when the document
/// has none, then set the marker — emitted only for unmarked pods.
pub open spec fn bookkeeping_ops(pod: PodView) -> Seq<PatchOpView> {
    if has_marker(pod) {
        Seq::empty()
    } else {
        let ensure_map: Seq<PatchOpView> = if pod.annotations is None {
            seq![
                PatchOpView::Add {
                    path: annotations_path(),
                    value: PatchValueView::EmptyObject,
                },
            ]
        } else {
            Seq::empty()
        };
        ensure_map + seq![
            PatchOpView::Add { path: marker_path(), value: PatchValueView::Text(marker_value()) },
        ]
    }
}

/// A remove operation for a key, if the map holds a parsable quantity
/// behind it.
pub open spec fn remove_if_present(
    m: Seq<(Seq<char>, Seq<char>)>,
    key: Seq<char>,
    path: Seq<char>,
) -> Seq<PatchOpView> {
    if entry_quantity(m, key) is Some {
        seq![PatchOpView::Remove { path }]
    } else {
        Seq::empty()
    }
}

/// Strip mode on one container: a remove for each of the four fields that
/// parsed, requests before limits, egress before ingress.
pub open spec fn strip_ops(c: ContainerView, idx: nat, ekey: Seq<char>, ikey: Seq<char>) -> Seq<
    PatchOpView,
> {
    remove_if_present(c.requests, ekey, requests_path(idx, ekey)) + remove_if_present(
        c.requests,
        ikey,
        requests_path(idx, ikey),
    ) + remove_if_present(c.limits, ekey, limits_path(idx, ekey)) + remove_if_present(
        c.limits,
        ikey,
        limits_path(idx, ikey),
    )
}

/// Overwrite mode for one key on one container: a copy from the requests
/// path onto the limits path, only when both sides parsed.
pub open spec fn copy_if_both(c: ContainerView, idx: nat, key: Seq<char>) -> Seq<PatchOpView> {
    if entry_quantity(c.requests, key) is Some && entry_quantity(c.limits, key) is Some {
        seq![
            PatchOpView::Copy { from: requests_path(idx, key), path: limits_path(idx, key) },
        ]
    } else {
        Seq::empty()
    }
}

/// The per-container patches of one mode.
pub open spec fn container_ops(
    c: ContainerView,
    idx: nat,
    ekey: Seq<char>,
    ikey: Seq<char>,
    mode: BandwidthMode,
) -> Seq<PatchOpView> {
    match mode {
        BandwidthMode::Annotate => Seq::empty(),
        BandwidthMode::Strip => strip_ops(c, idx, ekey, ikey),
        BandwidthMode::Overwrite => copy_if_both(c, idx, ekey) + copy_if_both(c, idx, ikey),
    }
}

/// The per-container patches of the whole pod, in container order.
pub open spec fn containers_ops(
    cs: Seq<ContainerView>,
    ekey: Seq<char>,
    ikey: Seq<char>,
    mode: BandwidthMode,
) -> Seq<PatchOpView>
    decreases cs.len(),
{
    if cs.len() == 0 {
        Seq::empty()
    } else {
        containers_ops(cs.drop_last(), ekey, ikey, mode) + container_ops(
            cs.last(),
            (cs.len() - 1) as nat,
            ekey,
            ikey,
            mode,
        )
    }
}

// ---------------------------------------------------------------------------
// The pod-level totals.
// ---------------------------------------------------------------------------

/// What one container contributes to a total, on the fixed-point grid.
pub open spec fn contribution(c: ContainerView, key: Seq<char>, limits: bool) -> Option<int> {
    match entry_quantity(
        if limits {
            c.limits
        } else {
            c.requests
        },
        key,
    ) {
        Some(q) => Some(q.scaled()),
        None => None,
    }
}

/// A running total folds a contribution in: absent totals become present
/// with the first contribution, and further contributions add up.
pub open spec fn combine(prev: Option<int>, c: Option<int>) -> Option<int> {
    match (prev, c) {
        (Option::None, x) => x,
        (Option::Some(t), Option::None) => Some(t),
        (Option::Some(t), Option::Some(v)) => Some(t + v),
    }
}

/// The total over a container prefix for one key and one map.
pub open spec fn running_total(cs: Seq<ContainerView>, key: Seq<char>, limits: bool) -> Option<
    int,
>
    decreases cs.len(),
{
    if cs.len() == 0 {
        None
    } else {
        combine(
            running_total(cs.drop_last(), key, limits),
            contribution(cs.last(), key, limits),
        )
    }
}

/// Does a total fit the machine magnitude the engine sums in?
pub open spec fn total_in_range(t: Option<int>) -> bool {
    match t {
        None => true,
        Some(v) => -(u128::MAX as int) <= v <= u128::MAX as int,
    }
}

/// All prefixes of the container list keep this total in range.
pub open spec fn prefix_totals_in_range(cs: Seq<ContainerView>, key: Seq<char>, limits: bool) -> bool {
    forall|k: int|
        0 <= k <= cs.len() ==> total_in_range(
            #[trigger] running_total(cs.subrange(0, k), key, limits),
        )
}

/// The engine overflows exactly when some prefix of some of the four
/// totals leaves the machine range.
pub open spec fn totals_overflow(cs: Seq<ContainerView>, ekey: Seq<char>, ikey: Seq<char>) -> bool {
    !(prefix_totals_in_range(cs, ekey, false) && prefix_totals_in_range(cs, ikey, false)
        && prefix_totals_in_range(cs, ekey, true) && prefix_totals_in_range(cs, ikey, true))
}

/// A total as a quantity on the fixed-point grid, ready for formatting.
pub open spec fn total_quantity(t: int) -> Quantity {
    Quantity {
        negative: t < 0,
        mantissa: (if t < 0 {
            -t
        } else {
            t
        }) as u128,
        scale: SCALE_MAX,
    }
}

/// The annotation written for one total, when it is present.
pub open spec fn total_annotation(t: Option<int>, path: Seq<char>) -> Seq<PatchOpView> {
    match t {
        None => Seq::empty(),
        Some(v) => seq![
            PatchOpView::Add {
                path,
                value: PatchValueView::Text(format_spec(total_quantity(v))),
            },
        ],
    }
}

/// The four total annotations, in their fixed order.
pub open spec fn totals_ops(cs: Seq<ContainerView>, ekey: Seq<char>, ikey: Seq<char>) -> Seq<
    PatchOpView,
> {
    total_annotation(running_total(cs, ekey, false), egress_request_annotation_path())
        + total_annotation(running_total(cs, ikey, false), ingress_request_annotation_path())
        + total_annotation(running_total(cs, ekey, true), egress_limit_annotation_path())
        + total_annotation(running_total(cs, ikey, true), ingress_limit_annotation_path())
}

/// Everything the engine emits for a pod: bookkeeping, the per-container
/// operations of the mode, then the total annotations.
pub open spec fn bandwidth_patches(
    pod: PodView,
    ekey: Seq<char>,
    ikey: Seq<char>,
    mode: BandwidthMode,
) -> Seq<PatchOpView> {
    bookkeeping_ops(pod) + containers_ops(pod.containers, ekey, ikey, mode) + totals_ops(
        pod.containers,
        ekey,
        ikey,
    )
}

// ---------------------------------------------------------------------------
// The engine.
// ---------------------------------------------------------------------------

/// A signed machine magnitude: the value a running total is held as.
pub open spec fn signed_val(neg: bool, mag: u128) -> int {
    if neg {
        -(mag as int)
    } else {
        mag as int
    }
}

/// A running total as the optional integer it stands for.
pub open spec fn opt_signed(t: Option<(bool, u128)>) -> Option<int> {
    match t {
        Some(p) => Some(signed_val(p.0, p.1)),
        None => None,
    }
}

/// Zero is never carried with a negative sign.
pub open spec fn opt_norm(t: Option<(bool, u128)>) -> bool {
    match t {
        Some(p) => p.0 ==> p.1 > 0,
        None => true,
    }
}

/// The quantity's value on the fixed-point grid, as sign and magnitude.
fn scaled_mag(q: &Quantity) -> (r: u128)
    requires
        q.wf(),
        q.mantissa < MANTISSA_LIMIT,
    ensures
        q.scaled() == signed_val(q.negative, r),
        r as nat == q.mantissa as nat * pow10((SCALE_MAX - q.scale) as nat),
        q.mantissa > 0 ==> r > 0,
{
    let p = pow10_u128(SCALE_MAX - q.scale);
    proof {
        crate::decimal::lemma_pow10_values();
        crate::decimal::lemma_pow10_monotone((SCALE_MAX - q.scale) as nat, SCALE_MAX as nat);
        assert((q.mantissa as int) * (p as int) < (MANTISSA_LIMIT as int) * pow10(SCALE_MAX as nat))
            by (nonlinear_arith)
            requires
                q.mantissa < MANTISSA_LIMIT,
                0 < p as int <= pow10(SCALE_MAX as nat),
        ;
        assert(q.mantissa > 0 ==> (q.mantissa as int) * (p as int) > 0) by (nonlinear_arith)
            requires
                p as int > 0,
        ;
        assert((-(q.mantissa as int)) * (p as int) == -((q.mantissa as int) * (p as int)))
            by (nonlinear_arith);
    }
    q.mantissa * p
}

/// Adds two signed magnitudes; `None` when the sum's magnitude leaves the
/// machine range.
fn signed_add(aneg: bool, amag: u128, bneg: bool, bmag: u128) -> (r: Option<(bool, u128)>)
    ensures
        match r {
            Some(s) => signed_val(s.0, s.1) == signed_val(aneg, amag) + signed_val(bneg, bmag)
                && (s.0 ==> s.1 > 0),
            None => !total_in_range(Some(signed_val(aneg, amag) + signed_val(bneg, bmag))),
        },
{
    if aneg == bneg {
        if amag > u128::MAX - bmag {
            None
        } else {
            let m = amag + bmag;
            Some((aneg && m > 0, m))
        }
    } else if amag >= bmag {
        let m = amag - bmag;
        Some((aneg && m > 0, m))
    } else {
        let m = bmag - amag;
        Some((bneg && m > 0, m))
    }
}

/// Folds one container's contribution into a running total; `None` when
/// the new total leaves the machine range.
fn fold_total(total: Option<(bool, u128)>, q: &Option<Quantity>) -> (r: Option<
    Option<(bool, u128)>,
>)
    requires
        opt_norm(total),
        match q {
            Some(qq) => qq.wf() && qq.mantissa < MANTISSA_LIMIT,
            None => true,
        },
    ensures
        match r {
            Some(t) => opt_norm(t) && opt_signed(t) == combine(
                opt_signed(total),
                match q {
                    Some(qq) => Some(qq.scaled()),
                    None => None,
                },
            ),
            None => !total_in_range(
                combine(
                    opt_signed(total),
                    match q {
                        Some(qq) => Some(qq.scaled()),
                        None => None,
                    },
                ),
            ),
        },
{
    match q {
        None => Some(total),
        Some(qq) => {
            let mag = scaled_mag(qq);
            match total {
                None => Some(Some((qq.negative && mag > 0, mag))),
                Some(t) => match signed_add(t.0, t.1, qq.negative, mag) {
                    Some(s) => Some(Some(s)),
                    None => None,
                },
            }
        },
    }
}

/// Builds the JSON Pointer path of a resource key in one container's
/// requests map.
fn build_requests_path(idx: usize, key: &String) -> (r: String)
    ensures
        r@ == requests_path(idx as nat, key@),
{
    let mut out = String::from_str("/spec/containers/");
    crate::decimal::push_digits(&mut out, idx as u128);
    out.append("/resources/requests/");
    let esc = escape_json_pointer(key.as_str());
    out.append(esc.as_str());
    proof {
        assert(out@ =~= requests_path(idx as nat, key@));
    }
    out
}

/// Builds the JSON Pointer path of a resource key in one container's
/// limits map.
fn build_limits_path(idx: usize, key: &String) -> (r: String)
    ensures
        r@ == limits_path(idx as nat, key@),
{
    let mut out = String::from_str("/spec/containers/");
    crate::decimal::push_digits(&mut out, idx as u128);
    out.append("/resources/limits/");
    let esc = escape_json_pointer(key.as_str());
    out.append(esc.as_str());
    proof {
        assert(out@ =~= limits_path(idx as nat, key@));
    }
    out
}

/// Reads the quantity a resource map declares behind a key; a missing key
/// or an unparsable value counts as absent.
fn map_quantity(entries: &Vec<(String, String)>, key: &String) -> (r: Option<Quantity>)
    ensures
        r == entry_quantity(entries_view(entries@), key@),
        match r {
            Some(qq) => qq.wf() && qq.mantissa < MANTISSA_LIMIT,
            None => true,
        },
{
    match assoc_get(entries, key) {
        None => None,
        Some(text) => match parse(text.as_str()) {
            Ok(q) => Some(q),
            Err(_) => None,
        },
    }
}

/// The annotation carrying one total, formatted on the fixed-point grid.
fn total_annotation_op(neg: bool, mag: u128, path: String) -> (r: PatchOp)
    requires
        neg ==> mag > 0,
    ensures
        r@ == (PatchOpView::Add {
            path: path@,
            value: PatchValueView::Text(format_spec(total_quantity(signed_val(neg, mag)))),
        }),
{
    let q = Quantity { negative: neg, mantissa: mag, scale: SCALE_MAX };
    proof {
        assert(q == total_quantity(signed_val(neg, mag)));
    }
    let text = format_quantity(&q);
    PatchOp::Add { path, value: PatchValue::Text(text) }
}

/// Emits the bookkeeping patches for a pod.
fn push_bookkeeping_ops(patches: &mut Vec<PatchOp>, pod: &Pod)
    ensures
        ops_view(final(patches)@) == ops_view(old(patches)@) + bookkeeping_ops(pod@),
{
    let marker = String::from_str("nba-admission");
    let marked = match &pod.annotations {
        None => false,
        Some(a) => match assoc_get(a, &marker) {
            Some(_) => true,
            None => false,
        },
    };
    if !marked {
        match &pod.annotations {
            None => {
                patches.push(
                    PatchOp::Add {
                        path: String::from_str("/metadata/annotations"),
                        value: PatchValue::EmptyObject,
                    },
                );
            },
            Some(_) => {},
        }
        patches.push(
            PatchOp::Add {
                path: String::from_str("/metadata/annotations/nba-admission"),
                value: PatchValue::Text(String::from_str("true")),
            },
        );
    }
    proof {
        assert(marked == has_marker(pod@));
        assert(ops_view(patches@) =~= ops_view(old(patches)@) + bookkeeping_ops(pod@));
    }
}

/// Emits the per-container patches of the mode for one container.
fn push_container_ops(
    patches: &mut Vec<PatchOp>,
    idx: usize,
    egress_key: &String,
    ingress_key: &String,
    mode: BandwidthMode,
    q_req_e: &Option<Quantity>,
    q_req_i: &Option<Quantity>,
    q_lim_e: &Option<Quantity>,
    q_lim_i: &Option<Quantity>,
    Ghost(c): Ghost<ContainerView>,
)
    requires
        *q_req_e == entry_quantity(c.requests, egress_key@),
        *q_req_i == entry_quantity(c.requests, ingress_key@),
        *q_lim_e == entry_quantity(c.limits, egress_key@),
        *q_lim_i == entry_quantity(c.limits, ingress_key@),
    ensures
        ops_view(final(patches)@) == ops_view(old(patches)@) + container_ops(
            c,
            idx as nat,
            egress_key@,
            ingress_key@,
            mode,
        ),
{
    match mode {
        BandwidthMode::Annotate => {},
        BandwidthMode::Strip => {
            if q_req_e.is_some() {
                patches.push(PatchOp::Remove { path: build_requests_path(idx, egress_key) });
            }
            if q_req_i.is_some() {
                patches.push(PatchOp::Remove { path: build_requests_path(idx, ingress_key) });
            }
            if q_lim_e.is_some() {
                patches.push(PatchOp::Remove { path: build_limits_path(idx, egress_key) });
            }
            if q_lim_i.is_some() {
                patches.push(PatchOp::Remove { path: build_limits_path(idx, ingress_key) });
            }
        },
        BandwidthMode::Overwrite => {
            if q_req_e.is_some() && q_lim_e.is_some() {
                patches.push(
                    PatchOp::Copy {
                        from: build_requests_path(idx, egress_key),
                        path: build_limits_path(idx, egress_key),
                    },
                );
            }
            if q_req_i.is_some() && q_lim_i.is_some() {
                patches.push(
                    PatchOp::Copy {
                        from: build_requests_path(idx, ingress_key),
                        path: build_limits_path(idx, ingress_key),
                    },
                );
            }
        },
    }
    proof {
        assert(ops_view(patches@) =~= ops_view(old(patches)@) + container_ops(
            c,
            idx as nat,
            egress_key@,
            ingress_key@,
            mode,
        ));
    }
}

/// Folds one container's contribution into a running total, or reports
/// that some prefix of this total leaves the machine range.
fn fold_step(
    total: Option<(bool, u128)>,
    q: &Option<Quantity>,
    Ghost(cs): Ghost<Seq<ContainerView>>,
    Ghost(i): Ghost<int>,
    Ghost(key): Ghost<Seq<char>>,
    Ghost(limits): Ghost<bool>,
) -> (r: Result<Option<(bool, u128)>, BandwidthError>)
    requires
        0 <= i < cs.len(),
        opt_norm(total),
        opt_signed(total) == running_total(cs.subrange(0, i), key, limits),
        *q == entry_quantity(
            if limits {
                cs[i].limits
            } else {
                cs[i].requests
            },
            key,
        ),
        match *q {
            Some(qq) => qq.wf() && qq.mantissa < MANTISSA_LIMIT,
            None => true,
        },
    ensures
        match r {
            Ok(t) => opt_norm(t) && opt_signed(t) == running_total(
                cs.subrange(0, i + 1),
                key,
                limits,
            ) && total_in_range(running_total(cs.subrange(0, i + 1), key, limits)),
            Err(e) => e == BandwidthError::TotalOverflow && !prefix_totals_in_range(
                cs,
                key,
                limits,
            ),
        },
{
    proof {
        assert(cs.subrange(0, i + 1).drop_last() =~= cs.subrange(0, i));
        assert(cs.subrange(0, i + 1).last() == cs[i]);
    }
    match fold_total(total, q) {
        Some(t) => {
            proof {
                assert(opt_signed(t) == running_total(cs.subrange(0, i + 1), key, limits));
            }
            Ok(t)
        },
        None => {
            proof {
                assert(!total_in_range(running_total(cs.subrange(0, i + 1), key, limits)));
                assert(!prefix_totals_in_range(cs, key, limits)) by {
                    if prefix_totals_in_range(cs, key, limits) {
                        assert(total_in_range(
                            running_total(cs.subrange(0, i + 1), key, limits),
                        ));
                    }
                }
            }
            Err(BandwidthError::TotalOverflow)
        },
    }
}

/// Appends the annotation for one total, when it is present.
fn push_total_annotation(patches: &mut Vec<PatchOp>, total: Option<(bool, u128)>, path: String)
    requires
        opt_norm(total),
    ensures
        ops_view(final(patches)@) == ops_view(old(patches)@) + total_annotation(
            opt_signed(total),
            path@,
        ),
{
    match total {
        Some(t) => {
            patches.push(total_annotation_op(t.0, t.1, path));
        },
        None => {},
    }
    proof {
        assert(ops_view(patches@) =~= ops_view(old(patches)@) + total_annotation(
            opt_signed(total),
            path@,
        ));
    }
}

/// Runs the bandwidth engine on a pod.
///
/// The patch list is exactly [`bandwidth_patches`]; the only failure is a
/// pod-level total leaving the machine range, which happens exactly when
/// [`totals_overflow`] holds.
#[verifier::rlimit(50)]
pub fn mutate_bandwidth(
    pod: &Pod,
    egress_key: &String,
    ingress_key: &String,
    mode: BandwidthMode,
) -> (r: Result<Vec<PatchOp>, BandwidthError>)
    ensures
        match r {
            Ok(patches) => !totals_overflow(pod@.containers, egress_key@, ingress_key@)
                && ops_view(patches@) == bandwidth_patches(
                pod@,
                egress_key@,
                ingress_key@,
                mode,
            ),
            Err(e) => e == BandwidthError::TotalOverflow && totals_overflow(
                pod@.containers,
                egress_key@,
                ingress_key@,
            ),
        },
{
    let ghost cs = pod@.containers;
    let ghost ekey = egress_key@;
    let ghost ikey = ingress_key@;

    let mut patches: Vec<PatchOp> = Vec::new();
    push_bookkeeping_ops(&mut patches, pod);

    // One pass over the containers: aggregate the four totals and emit the
    // per-container operations of the mode.
    let mut te_req: Option<(bool, u128)> = None;
    let mut ti_req: Option<(bool, u128)> = None;
    let mut te_lim: Option<(bool, u128)> = None;
    let mut ti_lim: Option<(bool, u128)> = None;
    let mut i: usize = 0;
    while i < pod.containers.len()
        invariant
            i <= pod.containers.len(),
            cs == pod@.containers,
            cs.len() == pod.containers.len(),
            ekey == egress_key@,
            ikey == ingress_key@,
            ops_view(patches@) == bookkeeping_ops(pod@) + containers_ops(
                cs.subrange(0, i as int),
                ekey,
                ikey,
                mode,
            ),
            opt_norm(te_req),
            opt_norm(ti_req),
            opt_norm(te_lim),
            opt_norm(ti_lim),
            opt_signed(te_req) == running_total(cs.subrange(0, i as int), ekey, false),
            opt_signed(ti_req) == running_total(cs.subrange(0, i as int), ikey, false),
            opt_signed(te_lim) == running_total(cs.subrange(0, i as int), ekey, true),
            opt_signed(ti_lim) == running_total(cs.subrange(0, i as int), ikey, true),
            forall|k: int|
                0 <= k <= i ==> total_in_range(
                    #[trigger] running_total(cs.subrange(0, k), ekey, false),
                ),
            forall|k: int|
                0 <= k <= i ==> total_in_range(
                    #[trigger] running_total(cs.subrange(0, k), ikey, false),
                ),
            forall|k: int|
                0 <= k <= i ==> total_in_range(
                    #[trigger] running_total(cs.subrange(0, k), ekey, true),
                ),
            forall|k: int|
                0 <= k <= i ==> total_in_range(
                    #[trigger] running_total(cs.subrange(0, k), ikey, true),
                ),
        decreases pod.containers.len() - i,
    {
        let c = &pod.containers[i];
        proof {
            assert(c@ == cs[i as int]);
        }

        let q_req_e = map_quantity(&c.requests, egress_key);
        let q_req_i = map_quantity(&c.requests, ingress_key);
        let q_lim_e = map_quantity(&c.limits, egress_key);
        let q_lim_i = map_quantity(&c.limits, ingress_key);

        te_req = match fold_step(
            te_req,
            &q_req_e,
            Ghost(cs),
            Ghost(i as int),
            Ghost(ekey),
            Ghost(false),
        ) {
            Ok(t) => t,
            Err(e) => {
                return Err(e);
            },
        };
        ti_req = match fold_step(
            ti_req,
            &q_req_i,
            Ghost(cs),
            Ghost(i as int),
            Ghost(ikey),
            Ghost(false),
        ) {
            Ok(t) => t,
            Err(e) => {
                return Err(e);
            },
        };
        te_lim = match fold_step(
            te_lim,
            &q_lim_e,
            Ghost(cs),
            Ghost(i as int),
            Ghost(ekey),
            Ghost(true),
        ) {
            Ok(t) => t,
            Err(e) => {
                return Err(e);
            },
        };
        ti_lim = match fold_step(
            ti_lim,
            &q_lim_i,
            Ghost(cs),
            Ghost(i as int),
            Ghost(ikey),
            Ghost(true),
        ) {
            Ok(t) => t,
            Err(e) => {
                return Err(e);
            },
        };

        push_container_ops(
            &mut patches,
            i,
            egress_key,
            ingress_key,
            mode,
            &q_req_e,
            &q_req_i,
            &q_lim_e,
            &q_lim_i,
            Ghost(cs[i as int]),
        );
        proof {
            assert(cs.subrange(0, (i + 1) as int).drop_last() =~= cs.subrange(0, i as int));
            assert(cs.subrange(0, (i + 1) as int).last() == cs[i as int]);
            assert(ops_view(patches@) =~= bookkeeping_ops(pod@) + containers_ops(
                cs.subrange(0, (i + 1) as int),
                ekey,
                ikey,
                mode,
            ));
        }
        i = i + 1;
    }
    proof {
        assert(cs.subrange(0, cs.len() as int) =~= cs);
    }

    // The four total annotations, in their fixed order.
    push_total_annotation(
        &mut patches,
        te_req,
        String::from_str("/metadata/annotations/kubernetes.io~1egress-request"),
    );
    push_total_annotation(
        &mut patches,
        ti_req,
        String::from_str("/metadata/annotations/kubernetes.io~1ingress-request"),
    );
    push_total_annotation(
        &mut patches,
        te_lim,
        String::from_str("/metadata/annotations/kubernetes.io~1egress-bandwidth"),
    );
    push_total_annotation(
        &mut patches,
        ti_lim,
        String::from_str("/metadata/annotations/kubernetes.io~1ingress-bandwidth"),
    );
    proof {
        assert(ops_view(patches@) =~= bandwidth_patches(pod@, ekey, ikey, mode));
    }
    Ok(patches)
}

} // verus!