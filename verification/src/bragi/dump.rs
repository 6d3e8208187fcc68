//! The printed table of the audio graph.

use vstd::prelude::*;
use crate::base::sanitize::{sanitize_display, shown};
use crate::bragi::picker::{percent_text, target_name};
use crate::bragi::state::{
    device_kind, is_default_node, kind_name, AudioNode, AudioNodeView, AudioState, AudioStateView,
    NodeKind,
};
use crate::number::{decimal, decimal_of};
use crate::table::{
    are_entries, bound, collected, collected_below, entries, lemma_collect_end, lemma_collect_row,
    lemma_row, rows_of,
};
use crate::text::{left_aligned, pad_left, pad_right, right_aligned, views};

verus! {

/// The header of the printed table.
pub open spec fn table_header() -> Seq<char> {
    left_aligned("TYPE"@, 7) + seq![' '] + right_aligned("ID"@, 4) + seq![' ', ' ']
        + right_aligned("VOL"@, 4) + seq![' ', ' '] + "NAME"@
}

/// The row of the printed table for a node.
pub open spec fn table_row(a: AudioStateView, n: AudioNodeView) -> Seq<char> {
    left_aligned(kind_name(n.kind), 6) + (if is_default_node(a, n) {
        "*"@
    } else {
        " "@
    }) + seq![' '] + right_aligned(decimal(n.id as nat), 4) + seq![' ', ' '] + right_aligned(
        percent_text(n.volume, "-"@),
        4,
    ) + seq![' ', ' '] + shown(n.name) + (match target_name(a, n) {
        Some(t) => " → "@ + shown(t),
        None => seq![],
    }) + (if !device_kind(n.kind) && n.detail is Some {
        "  ("@ + shown(n.detail->0) + ")"@
    } else {
        seq![]
    }) + (if n.mute {
        " [muted]"@
    } else {
        seq![]
    })
}

/// The row of a node, where it is of the kind `kind`.
pub open spec fn row_of_kind(a: AudioStateView, kind: NodeKind) -> spec_fn(
    AudioNodeView,
) -> Option<Seq<char>> {
    |n: AudioNodeView|
        if n.kind == kind {
            Some(table_row(a, n))
        } else {
            None
        }
}

/// The rows of the nodes of the kind `kind`, by growing number.
pub open spec fn rows_of_kind(a: AudioStateView, kind: NodeKind) -> Seq<Seq<char>> {
    collected(a.nodes, row_of_kind(a, kind))
}

/// The printed table: a header, and then outputs, inputs, players and recorders.
pub open spec fn table_text(a: AudioStateView) -> Seq<Seq<char>> {
    seq![table_header()] + rows_of_kind(a, NodeKind::Sink) + rows_of_kind(a, NodeKind::Source)
        + rows_of_kind(a, NodeKind::Playback) + rows_of_kind(a, NodeKind::Record)
}

/// The header of the printed table.
fn header_line() -> (s: String)
    ensures
        s@ == table_header(),
{
    let mut s = pad_right("TYPE", 7);
    s.push(' ');
    let id = pad_left("ID", 4);
    s.append(id.as_str());
    s.push(' ');
    s.push(' ');
    let vol = pad_left("VOL", 4);
    s.append(vol.as_str());
    s.push(' ');
    s.push(' ');
    s.append("NAME");
    assert(s@ =~= table_header());
    s
}

impl AudioState {
    /// The row of the printed table for the node `n`.
    fn node_line(&self, n: &AudioNode) -> (s: String)
        requires
            self.wf(),
        ensures
            s@ == table_row(self@, n@),
    {
        let mut s = pad_right(n.kind.label(), 6);
        if self.is_default(n) {
            s.append("*");
        } else {
            s.append(" ");
        }
        s.push(' ');
        let id = decimal_of(n.id as u64);
        let id = pad_left(id.as_str(), 4);
        s.append(id.as_str());
        s.push(' ');
        s.push(' ');
        let vol = match n.volume {
            Some(v) => {
                let mut t = decimal_of(v.percent as u64);
                t.append("%");
                t
            },
            None => "-".to_owned(),
        };
        let vol = pad_left(vol.as_str(), 4);
        s.append(vol.as_str());
        s.push(' ');
        s.push(' ');
        let name = sanitize_display(n.name.as_str());
        s.append(name.as_str());
        let ghost head = s@;
        assert(head =~= left_aligned(kind_name(n.kind), 6) + (if is_default_node(self@, n@) {
            "*"@
        } else {
            " "@
        }) + seq![' '] + right_aligned(decimal(n.id as nat), 4) + seq![' ', ' '] + right_aligned(
            percent_text(n.volume, "-"@),
            4,
        ) + seq![' ', ' '] + shown(n.name@));
        match self.target_of(n) {
            Some(t) => {
                s.append(" → ");
                let to = sanitize_display(t.name.as_str());
                s.append(to.as_str());
                assert(s@ =~= head + (" → "@ + shown(t.name@)));
            },
            None => {
                assert(s@ =~= head + Seq::<char>::empty());
            },
        }
        let ghost routed = s@;
        let mut plays = false;
        if !n.kind.is_device() {
            if let Some(d) = &n.detail {
                s.append("  (");
                let d = sanitize_display(d.as_str());
                s.append(d.as_str());
                s.append(")");
                plays = true;
                assert(s@ =~= routed + ("  ("@ + d@ + ")"@));
            }
        }
        assert(!plays ==> s@ =~= routed + Seq::<char>::empty());
        let ghost played = s@;
        if n.mute {
            s.append(" [muted]");
        } else {
            assert(s@ =~= played + Seq::<char>::empty());
        }
        s
    }

    /// Append the rows of the nodes of the kind `kind` to `out`.
    fn push_rows(&self, out: &mut Vec<String>, kind: NodeKind)
        requires
            self.wf(),
        ensures
            views(final(out)@) == views(old(out)@) + rows_of_kind(self@, kind),
    {
        let ghost a = self@;
        let ghost f = row_of_kind(a, kind);
        let ghost start = views(out@);
        let all = entries(&self.nodes);
        let ghost rows = rows_of(self.nodes@);
        let mut i: usize = 0;
        assert(views(out@) =~= start + collected_below(a.nodes, f, bound(rows, 0)));
        while i < all.len()
            invariant
                i <= all@.len(),
                rows == rows_of(self.nodes@),
                are_entries(all@, self.nodes@),
                self.wf(),
                a == self@,
                f == row_of_kind(a, kind),
                views(out@) == start + collected_below(a.nodes, f, bound(rows, i as int)),
            decreases all@.len() - i,
        {
            proof {
                let id = rows[i as int].0;
                lemma_row(self.nodes@, i as int);
                assert(a.nodes[id] == rows[i as int].1@);
                lemma_collect_row(self.nodes@, a.nodes, f, i as int);
            }
            let ghost so_far = collected_below(a.nodes, f, bound(rows, i as int));
            if all[i].1.kind == kind {
                let line = self.node_line(all[i].1);
                let ghost done = out@;
                let ghost lv = line@;
                out.push(line);
                assert(views(out@) =~= views(done).push(lv));
                assert(views(out@) =~= start + so_far.push(lv));
            }
            i += 1;
        }
        proof {
            lemma_collect_end(self.nodes@, a.nodes, f);
        }
    }

    /// The printed table: a header, and then outputs, inputs, players and
    /// recorders, each by growing number.
    pub fn table_lines(&self) -> (out: Vec<String>)
        requires
            self.wf(),
        ensures
            views(out@) == table_text(self@),
    {
        let mut out: Vec<String> = Vec::new();
        out.push(header_line());
        assert(views(out@) =~= seq![table_header()]);
        self.push_rows(&mut out, NodeKind::Sink);
        self.push_rows(&mut out, NodeKind::Source);
        self.push_rows(&mut out, NodeKind::Playback);
        self.push_rows(&mut out, NodeKind::Record);
        out
    }
}

} // verus!
