//! H.264 Annex-B elementary streams: splitting them into NAL units, and
//! grouping the units into the length-prefixed (AVCC) access units an MP4
//! track stores, with SPS/PPS carried in-band in every access unit.

use vstd::prelude::*;

verus! {

broadcast use vstd::seq::group_seq_axioms;

/// `nals` with `current` appended when it is a non-empty unit.
pub open spec fn flush(nals: Seq<Seq<u8>>, current: Option<Seq<u8>>) -> Seq<Seq<u8>> {
    match current {
        Some(n) => if n.len() > 0 {
            nals.push(n)
        } else {
            nals
        },
        None => nals,
    }
}

/// Whether a three-byte start code `00 00 01` begins at `i`.
pub open spec fn start3(data: Seq<u8>, i: int) -> bool {
    i + 3 <= data.len() && data[i] == 0 && data[i + 1] == 0 && data[i + 2] == 1
}

/// Whether a four-byte start code `00 00 00 01` begins at `i`.
pub open spec fn start4(data: Seq<u8>, i: int) -> bool {
    i + 4 <= data.len() && data[i] == 0 && data[i + 1] == 0 && data[i + 2] == 0 && data[i + 3] == 1
}

/// The NAL units of `data` from `i` on, scanning left to right: a start
/// code (three-byte first, then four-byte) ends the unit being collected
/// and opens a new one; other bytes extend the open unit, and bytes before
/// the first start code belong to none. Empty units are dropped.
pub open spec fn scan_nals(data: Seq<u8>, i: int, current: Option<Seq<u8>>, nals: Seq<Seq<u8>>) -> Seq<
    Seq<u8>,
>
    decreases data.len() - i,
{
    if i >= data.len() || i < 0 {
        flush(nals, current)
    } else if start3(data, i) {
        scan_nals(data, i + 3, Some(Seq::empty()), flush(nals, current))
    } else if start4(data, i) {
        scan_nals(data, i + 4, Some(Seq::empty()), flush(nals, current))
    } else {
        scan_nals(
            data,
            i + 1,
            match current {
                Some(n) => Some(n.push(data[i])),
                None => None,
            },
            nals,
        )
    }
}

/// The NAL units of an Annex-B stream (start codes stripped).
pub open spec fn spec_split_annexb(data: Seq<u8>) -> Seq<Seq<u8>> {
    scan_nals(data, 0, None, Seq::empty())
}

/// Splits an Annex-B stream into NAL units (start codes stripped).
pub fn split_annexb(data: &[u8]) -> (r: Vec<Vec<u8>>)
    ensures
        r@.map_values(|n: Vec<u8>| n@) == spec_split_annexb(data@),
        forall|k: int| 0 <= k < r@.len() ==> (#[trigger] r@[k])@.len() > 0,
{
    let mut nals: Vec<Vec<u8>> = Vec::new();
    let mut current: Option<Vec<u8>> = None;
    let mut i: usize = 0;
    let n = data.len();
    proof {
        assert(nals@.map_values(|v: Vec<u8>| v@) =~= Seq::<Seq<u8>>::empty());
    }
    while i < n
        invariant
            n == data@.len(),
            i <= n,
            scan_nals(data@, i as int, current_view(current), nals@.map_values(|v: Vec<u8>| v@))
                == spec_split_annexb(data@),
            forall|k: int| 0 <= k < nals@.len() ==> (#[trigger] nals@[k])@.len() > 0,
        decreases n - i,
    {
        if n - i >= 3 && data[i] == 0 && data[i + 1] == 0 && data[i + 2] == 1 {
            push_unit(&mut nals, current);
            current = Some(Vec::new());
            i += 3;
        } else if n - i >= 4 && data[i] == 0 && data[i + 1] == 0 && data[i + 2] == 0 && data[i + 3]
            == 1 {
            push_unit(&mut nals, current);
            current = Some(Vec::new());
            i += 4;
        } else {
            match current {
                Some(mut v) => {
                    v.push(data[i]);
                    current = Some(v);
                },
                None => {
                    current = None;
                },
            }
            i += 1;
        }
    }
    push_unit(&mut nals, current);
    nals
}

/// The view of the unit being collected.
pub open spec fn current_view(current: Option<Vec<u8>>) -> Option<Seq<u8>> {
    match current {
        Some(v) => Some(v@),
        None => None,
    }
}

/// Appends `current` to `nals` when it is a non-empty unit.
fn push_unit(nals: &mut Vec<Vec<u8>>, current: Option<Vec<u8>>)
    requires
        forall|k: int| 0 <= k < old(nals)@.len() ==> (#[trigger] old(nals)@[k])@.len() > 0,
    ensures
        final(nals)@.map_values(|v: Vec<u8>| v@) == flush(
            old(nals)@.map_values(|v: Vec<u8>| v@),
            current_view(current),
        ),
        forall|k: int| 0 <= k < final(nals)@.len() ==> (#[trigger] final(nals)@[k])@.len() > 0,
{
    let ghost before = nals@.map_values(|v: Vec<u8>| v@);
    match current {
        Some(v) => {
            if v.len() > 0 {
                nals.push(v);
                proof {
                    assert(nals@.map_values(|v: Vec<u8>| v@) =~= before.push(v@));
                }
            }
        },
        None => {},
    }
}

// ---------------------------------------------------------------------------
// Access units
// ---------------------------------------------------------------------------

/// A NAL unit with its 4-byte big-endian length prefix.
pub open spec fn avcc(nal: Seq<u8>) -> Seq<u8> {
    seq![
        (nal.len() / 0x100_0000 % 0x100) as u8,
        (nal.len() / 0x1_0000 % 0x100) as u8,
        (nal.len() / 0x100 % 0x100) as u8,
        (nal.len() % 0x100) as u8,
    ] + nal
}

/// The state of grouping NAL units into access units.
pub struct GroupState {
    /// Finished access units: AVCC payload and whether it is a keyframe.
    pub units: Seq<(Seq<u8>, bool)>,
    /// Parameter sets waiting for the next access unit.
    pub pending: Seq<u8>,
    /// An SPS was seen since the last access unit.
    pub saw_sps: bool,
    /// A PPS was seen since the last access unit.
    pub saw_pps: bool,
    /// The latest SPS.
    pub sps: Seq<u8>,
    /// The latest PPS.
    pub pps: Seq<u8>,
}

/// The type of a NAL unit (low five bits of its first byte).
pub open spec fn nal_type(nal: Seq<u8>) -> u8 {
    nal[0] & 0x1f
}

/// One NAL unit's effect: an SPS or PPS is remembered and queued; a slice
/// (type 5 keyframe or type 1) closes an access unit made of the queued
/// parameter sets and the slice, after which the latest SPS and PPS are
/// queued again and must be seen anew; a slice before both an SPS and a
/// PPS is an error; other units are skipped.
pub open spec fn group_step(s: GroupState, nal: Seq<u8>) -> Option<GroupState> {
    let t = nal_type(nal);
    if t == 7 {
        Some(GroupState { sps: nal, saw_sps: true, pending: s.pending + avcc(nal), ..s })
    } else if t == 8 {
        Some(GroupState { pps: nal, saw_pps: true, pending: s.pending + avcc(nal), ..s })
    } else if t == 5 || t == 1 {
        if !s.saw_sps || !s.saw_pps {
            None
        } else {
            Some(
                GroupState {
                    units: s.units.push((s.pending + avcc(nal), t == 5)),
                    pending: avcc(s.sps) + avcc(s.pps),
                    saw_sps: false,
                    saw_pps: false,
                    ..s
                },
            )
        }
    } else {
        Some(s)
    }
}

/// The grouping state after a run of NAL units, or `None` on a slice
/// without parameter sets.
pub open spec fn group_run(nals: Seq<Seq<u8>>) -> Option<GroupState>
    decreases nals.len(),
{
    if nals.len() == 0 {
        Some(
            GroupState {
                units: Seq::empty(),
                pending: Seq::empty(),
                saw_sps: false,
                saw_pps: false,
                sps: Seq::empty(),
                pps: Seq::empty(),
            },
        )
    } else {
        match group_run(nals.drop_last()) {
            Some(s) => group_step(s, nals.last()),
            None => None,
        }
    }
}

/// Access units ready to be muxed, with the track's SPS and PPS.
#[derive(Debug)]
pub struct AccessUnits {
    /// AVCC payload of each access unit, and whether it is a keyframe.
    pub units: Vec<(Vec<u8>, bool)>,
    /// The latest SPS.
    pub sps: Vec<u8>,
    /// The latest PPS.
    pub pps: Vec<u8>,
}

/// Appends `nal` with its 4-byte big-endian length prefix.
fn push_avcc(out: &mut Vec<u8>, nal: &Vec<u8>)
    requires
        nal@.len() <= u32::MAX,
    ensures
        final(out)@ == old(out)@ + avcc(nal@),
{
    let len = nal.len() as u32;
    out.push((len / 0x100_0000 % 0x100) as u8);
    out.push((len / 0x1_0000 % 0x100) as u8);
    out.push((len / 0x100 % 0x100) as u8);
    out.push((len % 0x100) as u8);
    let mut k: usize = 0;
    let ghost head = out@;
    while k < nal.len()
        invariant
            k <= nal@.len(),
            out@ == head + nal@.take(k as int),
        decreases nal@.len() - k,
    {
        out.push(nal[k]);
        proof {
            assert(nal@.take((k + 1) as int) =~= nal@.take(k as int).push(nal@[k as int]));
        }
        k += 1;
    }
    proof {
        assert(nal@.take(nal@.len() as int) =~= nal@);
        assert(out@ =~= old(out)@ + avcc(nal@));
    }
}

/// Groups an Annex-B stream's NAL units into length-prefixed access
/// units, one per slice, with the parameter sets written in-band into
/// every access unit.
///
/// # Errors
/// Returns a message for a slice before its SPS/PPS, or a stream with no
/// access unit.
pub fn group_access_units(annexb: &[u8]) -> (r: Result<AccessUnits, String>)
    requires
        annexb@.len() <= u32::MAX,
    ensures
        match group_run(spec_split_annexb(annexb@)) {
            Some(s) => if s.units.len() > 0 {
                r matches Ok(a) && a.units@.map_values(|u: (Vec<u8>, bool)| (u.0@, u.1)) == s.units
                    && a.sps@ == s.sps && a.pps@ == s.pps
            } else {
                r is Err
            },
            None => r is Err,
        },
{
    let nals = split_annexb(annexb);
    let ghost views = nals@.map_values(|n: Vec<u8>| n@);
    let mut units: Vec<(Vec<u8>, bool)> = Vec::new();
    let mut pending: Vec<u8> = Vec::new();
    let mut saw_sps = false;
    let mut saw_pps = false;
    let mut sps: Vec<u8> = Vec::new();
    let mut pps: Vec<u8> = Vec::new();
    let mut i: usize = 0;
    proof {
        assert(views.take(0) =~= Seq::<Seq<u8>>::empty());
        assert(units@.map_values(|u: (Vec<u8>, bool)| (u.0@, u.1)) =~= Seq::<(Seq<u8>, bool)>::empty());
        assert(pending@ =~= Seq::<u8>::empty());
        assert(sps@ =~= Seq::<u8>::empty());
        assert(pps@ =~= Seq::<u8>::empty());
    }
    while i < nals.len()
        invariant
            views == nals@.map_values(|n: Vec<u8>| n@),
            views == spec_split_annexb(annexb@),
            forall|k: int| 0 <= k < nals@.len() ==> (#[trigger] nals@[k])@.len() > 0,
            annexb@.len() <= u32::MAX,
            i <= nals.len(),
            group_run(views.take(i as int)) == Some(
                GroupState {
                    units: units@.map_values(|u: (Vec<u8>, bool)| (u.0@, u.1)),
                    pending: pending@,
                    saw_sps,
                    saw_pps,
                    sps: sps@,
                    pps: pps@,
                },
            ),
            sps@.len() <= u32::MAX,
            pps@.len() <= u32::MAX,
        decreases nals.len() - i,
    {
        let nal = &nals[i];
        proof {
            assert(views.take((i + 1) as int).drop_last() =~= views.take(i as int));
            assert(views.take((i + 1) as int).last() == nal@);
            assert(nal@.len() > 0);
            lemma_nal_len_bounded(annexb@, views, i as int);
        }
        let t = nal[0] & 0x1f;
        if t == 7 {
            sps = nal.clone();
            saw_sps = true;
            push_avcc(&mut pending, nal);
        } else if t == 8 {
            pps = nal.clone();
            saw_pps = true;
            push_avcc(&mut pending, nal);
        } else if t == 5 || t == 1 {
            if !saw_sps || !saw_pps {
                proof {
                    lemma_group_run_fails_after(views, (i + 1) as int);
                }
                return Err(String::from_str("stream contains a slice before SPS/PPS"));
            }
            let mut unit = pending.clone();
            push_avcc(&mut unit, nal);
            let ghost before = units@.map_values(|u: (Vec<u8>, bool)| (u.0@, u.1));
            units.push((unit, t == 5));
            proof {
                assert(units@.map_values(|u: (Vec<u8>, bool)| (u.0@, u.1)) =~= before.push(
                    (old_pending_plus(pending@, nal@), t == 5),
                ));
            }
            let mut again: Vec<u8> = Vec::new();
            push_avcc(&mut again, &sps);
            push_avcc(&mut again, &pps);
            proof {
                assert(again@ =~= avcc(sps@) + avcc(pps@));
            }
            pending = again;
            saw_sps = false;
            saw_pps = false;
        }
        i += 1;
    }
    proof {
        assert(views.take(nals.len() as int) =~= views);
    }
    if units.len() == 0 {
        return Err(String::from_str("no access units found in stream"));
    }
    Ok(AccessUnits { units, sps, pps })
}

/// `pending` followed by the length-prefixed `nal`.
pub open spec fn old_pending_plus(pending: Seq<u8>, nal: Seq<u8>) -> Seq<u8> {
    pending + avcc(nal)
}

/// A unit split out of a stream is no longer than the stream.
proof fn lemma_nal_len_bounded(data: Seq<u8>, views: Seq<Seq<u8>>, i: int)
    requires
        views == spec_split_annexb(data),
        0 <= i < views.len(),
    ensures
        views[i].len() <= data.len(),
{
    lemma_scan_units_bounded(data, 0, None, Seq::empty());
}

/// Every unit `scan_nals` gives is at most as long as the data.
proof fn lemma_scan_units_bounded(
    data: Seq<u8>,
    i: int,
    current: Option<Seq<u8>>,
    nals: Seq<Seq<u8>>,
)
    requires
        0 <= i <= data.len(),
        forall|k: int| 0 <= k < nals.len() ==> (#[trigger] nals[k]).len() <= data.len(),
        match current {
            Some(n) => n.len() <= i,
            None => true,
        },
    ensures
        forall|k: int|
            0 <= k < scan_nals(data, i, current, nals).len() ==> (#[trigger] scan_nals(
                data,
                i,
                current,
                nals,
            )[k]).len() <= data.len(),
    decreases data.len() - i,
{
    let f = flush(nals, current);
    assert forall|k: int| 0 <= k < f.len() implies (#[trigger] f[k]).len() <= data.len() by {
        if k < nals.len() {
            assert(f[k] == nals[k]);
        }
    }
    if i >= data.len() {
        assert(scan_nals(data, i, current, nals) == f);
    } else if start3(data, i) {
        assert(scan_nals(data, i, current, nals) == scan_nals(data, i + 3, Some(Seq::empty()), f));
        lemma_scan_units_bounded(data, i + 3, Some(Seq::empty()), f);
    } else if start4(data, i) {
        assert(scan_nals(data, i, current, nals) == scan_nals(data, i + 4, Some(Seq::empty()), f));
        lemma_scan_units_bounded(data, i + 4, Some(Seq::empty()), f);
    } else {
        let next = match current {
            Some(n) => Some(n.push(data[i])),
            None => None,
        };
        assert(scan_nals(data, i, current, nals) == scan_nals(data, i + 1, next, nals));
        lemma_scan_units_bounded(data, i + 1, next, nals);
    }
}

/// Once a run of units fails, every longer run fails.
proof fn lemma_group_run_fails_after(views: Seq<Seq<u8>>, k: int)
    requires
        0 < k <= views.len(),
        group_run(views.take(k)) is None,
    ensures
        group_run(views) is None,
    decreases views.len() - k,
{
    if k < views.len() {
        assert(views.take(k + 1).drop_last() =~= views.take(k));
        lemma_group_run_fails_after(views, k + 1);
    } else {
        assert(views.take(k) =~= views);
    }
}

} // verus!
