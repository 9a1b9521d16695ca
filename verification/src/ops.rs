use vstd::prelude::*;

use crate::pad::{
    CalendarLayoutSetting, CalendarLayoutSettingView, FilterRevision, FilterRevisionView,
    GroupConfigurationRevision, GroupConfigurationRevisionView, LayoutRevision, SortRevision,
    SortRevisionView,
};
use crate::revision::clone_bytes;

verus! {

/// Mathematical value of a [`ViewOperation`].
pub enum OperationView {
    SetLayout { layout: LayoutRevision },
    UpsertCalendarSetting { setting: CalendarLayoutSettingView },
    UpsertFilter { filter: FilterRevisionView },
    UpsertSort { sort: SortRevisionView },
    UpsertGroup { group: GroupConfigurationRevisionView },
}

/// One encoded edit of the view's configuration. A revision's byte payload
/// is the encoding of a sequence of these; replaying them in order rebuilds
/// the pad.
pub enum ViewOperation {
    SetLayout { layout: LayoutRevision },
    UpsertCalendarSetting { setting: CalendarLayoutSetting },
    UpsertFilter { filter: FilterRevision },
    UpsertSort { sort: SortRevision },
    UpsertGroup { group: GroupConfigurationRevision },
}

impl View for ViewOperation {
    type V = OperationView;

    open spec fn view(&self) -> OperationView {
        match self {
            ViewOperation::SetLayout { layout } => OperationView::SetLayout { layout: *layout },
            ViewOperation::UpsertCalendarSetting { setting } => OperationView::UpsertCalendarSetting {
                setting: setting@,
            },
            ViewOperation::UpsertFilter { filter } => OperationView::UpsertFilter {
                filter: filter@,
            },
            ViewOperation::UpsertSort { sort } => OperationView::UpsertSort { sort: sort@ },
            ViewOperation::UpsertGroup { group } => OperationView::UpsertGroup { group: group@ },
        }
    }
}

impl Clone for ViewOperation {
    fn clone(&self) -> (r: Self)
        ensures
            r@ == self@,
    {
        match self {
            ViewOperation::SetLayout { layout } => ViewOperation::SetLayout { layout: *layout },
            ViewOperation::UpsertCalendarSetting { setting } => ViewOperation::UpsertCalendarSetting {
                setting: setting.clone(),
            },
            ViewOperation::UpsertFilter { filter } => ViewOperation::UpsertFilter {
                filter: filter.clone(),
            },
            ViewOperation::UpsertSort { sort } => ViewOperation::UpsertSort { sort: sort.clone() },
            ViewOperation::UpsertGroup { group } => ViewOperation::UpsertGroup {
                group: group.clone(),
            },
        }
    }
}

/// The wire byte for a layout.
pub open spec fn layout_byte(l: LayoutRevision) -> u8 {
    match l {
        LayoutRevision::Grid => 0,
        LayoutRevision::Board => 1,
        LayoutRevision::Calendar => 2,
    }
}

/// The layout a wire byte stands for; `None` for a byte that encodes none.
pub open spec fn dec_layout(v: u8) -> Option<LayoutRevision> {
    if v == 0 {
        Some(LayoutRevision::Grid)
    } else if v == 1 {
        Some(LayoutRevision::Board)
    } else if v == 2 {
        Some(LayoutRevision::Calendar)
    } else {
        None
    }
}

/// The wire byte for a flag.
pub open spec fn bool_byte(b: bool) -> u8 {
    if b {
        1
    } else {
        0
    }
}

/// The flag a wire byte stands for; only 0 and 1 encode one.
pub open spec fn dec_bool(v: u8) -> Option<bool> {
    if v == 0 {
        Some(false)
    } else if v == 1 {
        Some(true)
    } else {
        None
    }
}

/// A length or integer on the wire: eight bytes, least significant first.
pub open spec fn enc_u64(n: u64) -> Seq<u8> {
    seq![
        (n & 0xff) as u8,
        ((n >> 8) & 0xff) as u8,
        ((n >> 16) & 0xff) as u8,
        ((n >> 24) & 0xff) as u8,
        ((n >> 32) & 0xff) as u8,
        ((n >> 40) & 0xff) as u8,
        ((n >> 48) & 0xff) as u8,
        ((n >> 56) & 0xff) as u8,
    ]
}

/// A byte string on the wire: its length, then its bytes.
pub open spec fn enc_bytes(b: Seq<u8>) -> Seq<u8> {
    enc_u64(b.len() as u64) + b
}

/// The encoding of one operation: a tag byte, then its fields.
pub open spec fn enc_op(op: OperationView) -> Seq<u8> {
    match op {
        OperationView::SetLayout { layout } => seq![1u8, layout_byte(layout)],
        OperationView::UpsertCalendarSetting { setting } => seq![2u8] + enc_bytes(
            setting.layout_field_id,
        ) + seq![setting.first_day_of_week, bool_byte(setting.show_weekends)],
        OperationView::UpsertFilter { filter } => seq![3u8] + enc_bytes(filter.id) + enc_bytes(
            filter.field_id,
        ) + seq![filter.field_type, filter.condition] + enc_bytes(filter.content),
        OperationView::UpsertSort { sort } => seq![4u8] + enc_bytes(sort.id) + enc_bytes(
            sort.field_id,
        ) + seq![sort.field_type, sort.condition],
        OperationView::UpsertGroup { group } => seq![5u8] + enc_bytes(group.id) + enc_bytes(
            group.field_id,
        ) + seq![group.field_type] + enc_bytes(group.content),
    }
}

/// The encoding of a sequence of operations, in order.
pub open spec fn enc_ops(ops: Seq<OperationView>) -> Seq<u8>
    decreases ops.len(),
{
    if ops.len() == 0 {
        Seq::empty()
    } else {
        enc_ops(ops.drop_last()) + enc_op(ops.last())
    }
}

/// Decodes an integer at `pos`: `None` when fewer than eight bytes remain.
pub open spec fn dec_u64(b: Seq<u8>, pos: int) -> Option<(u64, int)> {
    if 0 <= pos && pos + 8 <= b.len() {
        let n = (b[pos] as u64 + b[pos + 1] as u64 * 0x100 + b[pos + 2] as u64 * 0x1_0000 + b[pos
            + 3] as u64 * 0x100_0000 + b[pos + 4] as u64 * 0x1_0000_0000 + b[pos + 5] as u64
            * 0x100_0000_0000 + b[pos + 6] as u64 * 0x1_0000_0000_0000 + b[pos + 7] as u64
            * 0x100_0000_0000_0000) as u64;
        Some((n, pos + 8))
    } else {
        None
    }
}

/// Decodes a byte string at `pos`: its length, then that many bytes.
pub open spec fn dec_bytes(b: Seq<u8>, pos: int) -> Option<(Seq<u8>, int)> {
    match dec_u64(b, pos) {
        None => None,
        Some((n, p)) => if p + n <= b.len() {
            Some((b.subrange(p, p + n as int), p + n as int))
        } else {
            None
        },
    }
}

/// Decodes one operation at `pos`: `None` for a truncated or unknown
/// encoding.
pub open spec fn dec_op(b: Seq<u8>, pos: int) -> Option<(OperationView, int)> {
    if !(0 <= pos < b.len()) {
        None
    } else {
        let tag = b[pos];
        if tag == 1 {
            if pos + 2 <= b.len() {
                match dec_layout(b[pos + 1]) {
                    Some(l) => Some((OperationView::SetLayout { layout: l }, pos + 2)),
                    None => None,
                }
            } else {
                None
            }
        } else if tag == 2 {
            match dec_bytes(b, pos + 1) {
                Some((fid, p1)) => if p1 + 2 <= b.len() {
                    match dec_bool(b[p1 + 1]) {
                        Some(w) => Some(
                            (
                                OperationView::UpsertCalendarSetting {
                                    setting: CalendarLayoutSettingView {
                                        layout_field_id: fid,
                                        first_day_of_week: b[p1],
                                        show_weekends: w,
                                    },
                                },
                                p1 + 2,
                            ),
                        ),
                        None => None,
                    }
                } else {
                    None
                },
                None => None,
            }
        } else if tag == 3 {
            match dec_bytes(b, pos + 1) {
                Some((id, p1)) => match dec_bytes(b, p1) {
                    Some((fid, p2)) => if p2 + 2 <= b.len() {
                        match dec_bytes(b, p2 + 2) {
                            Some((content, p3)) => Some(
                                (
                                    OperationView::UpsertFilter {
                                        filter: FilterRevisionView {
                                            id: id,
                                            field_id: fid,
                                            field_type: b[p2],
                                            condition: b[p2 + 1],
                                            content: content,
                                        },
                                    },
                                    p3,
                                ),
                            ),
                            None => None,
                        }
                    } else {
                        None
                    },
                    None => None,
                },
                None => None,
            }
        } else if tag == 4 {
            match dec_bytes(b, pos + 1) {
                Some((id, p1)) => match dec_bytes(b, p1) {
                    Some((fid, p2)) => if p2 + 2 <= b.len() {
                        Some(
                            (
                                OperationView::UpsertSort {
                                    sort: SortRevisionView {
                                        id: id,
                                        field_id: fid,
                                        field_type: b[p2],
                                        condition: b[p2 + 1],
                                    },
                                },
                                p2 + 2,
                            ),
                        )
                    } else {
                        None
                    },
                    None => None,
                },
                None => None,
            }
        } else if tag == 5 {
            match dec_bytes(b, pos + 1) {
                Some((id, p1)) => match dec_bytes(b, p1) {
                    Some((fid, p2)) => if p2 + 1 <= b.len() {
                        match dec_bytes(b, p2 + 1) {
                            Some((content, p3)) => Some(
                                (
                                    OperationView::UpsertGroup {
                                        group: GroupConfigurationRevisionView {
                                            id: id,
                                            field_id: fid,
                                            field_type: b[p2],
                                            content: content,
                                        },
                                    },
                                    p3,
                                ),
                            ),
                            None => None,
                        }
                    } else {
                        None
                    },
                    None => None,
                },
                None => None,
            }
        } else {
            None
        }
    }
}

/// Decodes the whole operation sequence from `pos` to the end of the
/// payload; `None` when any operation is malformed or bytes are left over
/// mid-operation.
pub open spec fn dec_ops(b: Seq<u8>, pos: int) -> Option<Seq<OperationView>>
    decreases b.len() - pos,
{
    if pos == b.len() {
        Some(Seq::empty())
    } else if !(0 <= pos < b.len()) {
        None
    } else {
        match dec_op(b, pos) {
            None => None,
            Some((op, p2)) => if pos < p2 <= b.len() {
                match dec_ops(b, p2) {
                    None => None,
                    Some(rest) => Some(seq![op] + rest),
                }
            } else {
                None
            },
        }
    }
}

/// Appends the bytes of `b`.
pub fn append_bytes(out: &mut Vec<u8>, b: &Vec<u8>)
    ensures
        final(out)@ == old(out)@ + b@,
{
    let mut i: usize = 0;
    while i < b.len()
        invariant
            i <= b.len(),
            out@ == old(out)@ + b@.take(i as int),
        decreases b.len() - i,
    {
        out.push(b[i]);
        proof {
            assert(old(out)@ + b@.take(i + 1) =~= (old(out)@ + b@.take(i as int)).push(
                b@[i as int],
            ));
        }
        i += 1;
    }
    proof {
        assert(old(out)@ + b@.take(b@.len() as int) =~= old(out)@ + b@);
        assert(old(out)@ + b@.take(0) =~= old(out)@);
    }
}

/// Appends the wire encoding of an integer.
fn push_u64(out: &mut Vec<u8>, n: u64)
    ensures
        final(out)@ == old(out)@ + enc_u64(n),
{
    out.push((n & 0xff) as u8);
    out.push(((n >> 8) & 0xff) as u8);
    out.push(((n >> 16) & 0xff) as u8);
    out.push(((n >> 24) & 0xff) as u8);
    out.push(((n >> 32) & 0xff) as u8);
    out.push(((n >> 40) & 0xff) as u8);
    out.push(((n >> 48) & 0xff) as u8);
    out.push(((n >> 56) & 0xff) as u8);
    proof {
        assert(out@ =~= old(out)@ + enc_u64(n));
    }
}

/// Appends the wire encoding of a byte string.
fn push_bytes_field(out: &mut Vec<u8>, b: &Vec<u8>)
    ensures
        final(out)@ == old(out)@ + enc_bytes(b@),
{
    push_u64(out, b.len() as u64);
    append_bytes(out, b);
    proof {
        assert(out@ =~= old(out)@ + enc_bytes(b@));
    }
}

/// Encodes one operation as its tag byte followed by its fields.
pub fn encode_op(op: &ViewOperation) -> (r: Vec<u8>)
    ensures
        r@ == enc_op(op@),
{
    let mut out: Vec<u8> = Vec::new();
    proof {
        assert(out@ =~= Seq::<u8>::empty());
    }
    match op {
        ViewOperation::SetLayout { layout } => {
            out.push(1u8);
            let lb: u8 = match layout {
                LayoutRevision::Grid => 0,
                LayoutRevision::Board => 1,
                LayoutRevision::Calendar => 2,
            };
            out.push(lb);
        },
        ViewOperation::UpsertCalendarSetting { setting } => {
            out.push(2u8);
            push_bytes_field(&mut out, &setting.layout_field_id);
            out.push(setting.first_day_of_week);
            let wb: u8 = if setting.show_weekends {
                1
            } else {
                0
            };
            out.push(wb);
        },
        ViewOperation::UpsertFilter { filter } => {
            out.push(3u8);
            push_bytes_field(&mut out, &filter.id);
            push_bytes_field(&mut out, &filter.field_id);
            out.push(filter.field_type);
            out.push(filter.condition);
            push_bytes_field(&mut out, &filter.content);
        },
        ViewOperation::UpsertSort { sort } => {
            out.push(4u8);
            push_bytes_field(&mut out, &sort.id);
            push_bytes_field(&mut out, &sort.field_id);
            out.push(sort.field_type);
            out.push(sort.condition);
        },
        ViewOperation::UpsertGroup { group } => {
            out.push(5u8);
            push_bytes_field(&mut out, &group.id);
            push_bytes_field(&mut out, &group.field_id);
            out.push(group.field_type);
            push_bytes_field(&mut out, &group.content);
        },
    }
    proof {
        assert(out@ =~= enc_op(op@));
    }
    out
}

/// Encodes a sequence of operations, in order.
pub fn encode_operations(ops: &Vec<ViewOperation>) -> (r: Vec<u8>)
    ensures
        r@ == enc_ops(ops@.map_values(|o: ViewOperation| o@)),
{
    let ghost opsv = ops@.map_values(|o: ViewOperation| o@);
    let mut out: Vec<u8> = Vec::new();
    proof {
        assert(out@ =~= enc_ops(opsv.take(0)));
    }
    let mut k: usize = 0;
    while k < ops.len()
        invariant
            k <= ops.len(),
            opsv == ops@.map_values(|o: ViewOperation| o@),
            out@ == enc_ops(opsv.take(k as int)),
        decreases ops.len() - k,
    {
        let e = encode_op(&ops[k]);
        append_bytes(&mut out, &e);
        proof {
            assert(opsv.take(k + 1).drop_last() =~= opsv.take(k as int));
            assert(opsv.take(k + 1).last() == opsv[k as int]);
        }
        k += 1;
    }
    proof {
        assert(opsv.take(opsv.len() as int) =~= opsv);
    }
    out
}

/// The decoded value an exec decode step stands for.
pub open spec fn opt_u64_view(r: Option<(u64, usize)>) -> Option<(u64, int)> {
    match r {
        None => None,
        Some((n, p)) => Some((n, p as int)),
    }
}

/// Decodes an integer at `pos`.
fn decode_u64(b: &Vec<u8>, pos: usize) -> (r: Option<(u64, usize)>)
    ensures
        dec_u64(b@, pos as int) == opt_u64_view(r),
{
    if pos <= b.len() && b.len() - pos >= 8 {
        let n: u64 = (b[pos] as u64) + (b[pos + 1] as u64) * 0x100 + (b[pos + 2] as u64) * 0x1_0000
            + (b[pos + 3] as u64) * 0x100_0000 + (b[pos + 4] as u64) * 0x1_0000_0000 + (b[pos
            + 5] as u64) * 0x100_0000_0000 + (b[pos + 6] as u64) * 0x1_0000_0000_0000 + (b[pos
            + 7] as u64) * 0x100_0000_0000_0000;
        Some((n, pos + 8))
    } else {
        None
    }
}

/// Copies `b[from..to]`.
fn copy_range(b: &Vec<u8>, from: usize, to: usize) -> (r: Vec<u8>)
    requires
        from <= to <= b.len(),
    ensures
        r@ == b@.subrange(from as int, to as int),
{
    let mut out: Vec<u8> = Vec::new();
    let mut i: usize = from;
    proof {
        assert(out@ =~= b@.subrange(from as int, from as int));
    }
    while i < to
        invariant
            from <= i <= to <= b.len(),
            out@ == b@.subrange(from as int, i as int),
        decreases to - i,
    {
        out.push(b[i]);
        proof {
            assert(b@.subrange(from as int, i + 1) =~= b@.subrange(from as int, i as int).push(
                b@[i as int],
            ));
        }
        i += 1;
    }
    out
}

/// The decoded value an exec byte-string decode stands for.
pub open spec fn opt_bytes_view(r: Option<(Vec<u8>, usize)>) -> Option<(Seq<u8>, int)> {
    match r {
        None => None,
        Some((v, p)) => Some((v@, p as int)),
    }
}

/// Decodes a byte string at `pos`.
fn decode_bytes(b: &Vec<u8>, pos: usize) -> (r: Option<(Vec<u8>, usize)>)
    ensures
        dec_bytes(b@, pos as int) == opt_bytes_view(r),
{
    match decode_u64(b, pos) {
        None => None,
        Some((n, p)) => {
            if n <= (b.len() - p) as u64 {
                let n_us: usize = n as usize;
                let v = copy_range(b, p, p + n_us);
                Some((v, p + n_us))
            } else {
                None
            }
        },
    }
}

/// The decoded value an exec operation decode stands for.
pub open spec fn opt_op_view(r: Option<(ViewOperation, usize)>) -> Option<(OperationView, int)> {
    match r {
        None => None,
        Some((op, p)) => Some((op@, p as int)),
    }
}

/// Decodes one operation at `pos`.
fn decode_op(b: &Vec<u8>, pos: usize) -> (r: Option<(ViewOperation, usize)>)
    ensures
        dec_op(b@, pos as int) == opt_op_view(r),
{
    if pos >= b.len() {
        return None;
    }
    let tag = b[pos];
    if tag == 1 {
        if b.len() - pos >= 2 {
            let lb = b[pos + 1];
            let layout = if lb == 0 {
                Some(LayoutRevision::Grid)
            } else if lb == 1 {
                Some(LayoutRevision::Board)
            } else if lb == 2 {
                Some(LayoutRevision::Calendar)
            } else {
                None
            };
            match layout {
                Some(l) => Some((ViewOperation::SetLayout { layout: l }, pos + 2)),
                None => None,
            }
        } else {
            None
        }
    } else if tag == 2 {
        match decode_bytes(b, pos + 1) {
            Some((fid, p1)) => {
                if p1 < b.len() && b.len() - p1 >= 2 {
                    let day = b[p1];
                    let wb = b[p1 + 1];
                    let w = if wb == 0 {
                        Some(false)
                    } else if wb == 1 {
                        Some(true)
                    } else {
                        None
                    };
                    match w {
                        Some(weekends) => Some(
                            (
                                ViewOperation::UpsertCalendarSetting {
                                    setting: CalendarLayoutSetting {
                                        layout_field_id: fid,
                                        first_day_of_week: day,
                                        show_weekends: weekends,
                                    },
                                },
                                p1 + 2,
                            ),
                        ),
                        None => None,
                    }
                } else {
                    None
                }
            },
            None => None,
        }
    } else if tag == 3 {
        match decode_bytes(b, pos + 1) {
            Some((id, p1)) => match decode_bytes(b, p1) {
                Some((fid, p2)) => {
                    if p2 < b.len() && b.len() - p2 >= 2 {
                        match decode_bytes(b, p2 + 2) {
                            Some((content, p3)) => Some(
                                (
                                    ViewOperation::UpsertFilter {
                                        filter: FilterRevision {
                                            id: id,
                                            field_id: fid,
                                            field_type: b[p2],
                                            condition: b[p2 + 1],
                                            content: content,
                                        },
                                    },
                                    p3,
                                ),
                            ),
                            None => None,
                        }
                    } else {
                        None
                    }
                },
                None => None,
            },
            None => None,
        }
    } else if tag == 4 {
        match decode_bytes(b, pos + 1) {
            Some((id, p1)) => match decode_bytes(b, p1) {
                Some((fid, p2)) => {
                    if p2 < b.len() && b.len() - p2 >= 2 {
                        Some(
                            (
                                ViewOperation::UpsertSort {
                                    sort: SortRevision {
                                        id: id,
                                        field_id: fid,
                                        field_type: b[p2],
                                        condition: b[p2 + 1],
                                    },
                                },
                                p2 + 2,
                            ),
                        )
                    } else {
                        None
                    }
                },
                None => None,
            },
            None => None,
        }
    } else if tag == 5 {
        match decode_bytes(b, pos + 1) {
            Some((id, p1)) => match decode_bytes(b, p1) {
                Some((fid, p2)) => {
                    if p2 < b.len() {
                        match decode_bytes(b, p2 + 1) {
                            Some((content, p3)) => Some(
                                (
                                    ViewOperation::UpsertGroup {
                                        group: GroupConfigurationRevision {
                                            id: id,
                                            field_id: fid,
                                            field_type: b[p2],
                                            content: content,
                                        },
                                    },
                                    p3,
                                ),
                            ),
                            None => None,
                        }
                    } else {
                        None
                    }
                },
                None => None,
            },
            None => None,
        }
    } else {
        None
    }
}

/// The decoded value an exec sequence decode stands for.
pub open spec fn opt_ops_view(r: Option<Vec<ViewOperation>>) -> Option<Seq<OperationView>> {
    match r {
        None => None,
        Some(ops) => Some(ops@.map_values(|o: ViewOperation| o@)),
    }
}

/// Decodes the whole operation sequence of a payload from `pos`.
pub fn decode_operations(b: &Vec<u8>, pos: usize) -> (r: Option<Vec<ViewOperation>>)
    requires
        pos <= b.len(),
    ensures
        dec_ops(b@, pos as int) == opt_ops_view(r),
    decreases b@.len() - pos,
{
    if pos == b.len() {
        let out: Vec<ViewOperation> = Vec::new();
        proof {
            assert(out@.map_values(|o: ViewOperation| o@) =~= Seq::<OperationView>::empty());
        }
        return Some(out);
    }
    match decode_op(b, pos) {
        None => None,
        Some((op, p2)) => {
            if pos < p2 && p2 <= b.len() {
                match decode_operations(b, p2) {
                    None => None,
                    Some(rest) => {
                        let mut rest = rest;
                        let ghost restv = rest@.map_values(|o: ViewOperation| o@);
                        rest.insert(0, op);
                        proof {
                            assert(rest@.map_values(|o: ViewOperation| o@) =~= seq![op@] + restv);
                        }
                        Some(rest)
                    },
                }
            } else {
                None
            }
        },
    }
}

} // verus!
