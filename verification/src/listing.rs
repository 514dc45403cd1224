//! Reading the text that `pw-cli ls Port` and `pw-cli ls Node` print, and
//! the port-to-port links the mixer creates from it.
//!
//! A listing is a sequence of objects, each opened by a line
//! `id <number>, ...` and followed by `key = "value"` property lines.

use vstd::prelude::*;
use crate::text::{
    chars_of, equals_str, slice_chars, parse_u32, parse_u32_spec, piece_after,
    piece_after_exec, second_word, split_lines, starts_with_str, trim_end_char, trim_end_char_exec,
    trim_start, trim_start_chars, word_at, lines_of,
};

verus! {

/// The id an `id ...` line announces: its second word without trailing
/// commas, as a number. A line with no second word keeps the current id; a
/// second word that is not a number clears it.
pub open spec fn header_id(t: Seq<char>, cur: Option<u32>) -> Option<u32> {
    match word_at(t, 1) {
        Some(w) => parse_u32_spec(trim_end_char(w, ',')),
        None => cur,
    }
}

/// The value of a `key = "value"` line: the text after the first `= "`, up
/// to a second one if any, without trailing quotes.
pub open spec fn quoted_value(t: Seq<char>) -> Option<Seq<char>> {
    match piece_after(t, "= \""@) {
        Some(v) => Some(trim_end_char(v, '"')),
        None => None,
    }
}

fn header_id_exec(t: &Vec<char>, cur: Option<u32>) -> (r: Option<u32>)
    ensures
        r == header_id(t@, cur),
{
    match second_word(t) {
        Some(w) => parse_u32(&trim_end_char_exec(&w, ',')),
        None => cur,
    }
}

fn quoted_value_exec(t: &Vec<char>) -> (r: Option<Vec<char>>)
    ensures
        match r {
            Some(v) => quoted_value(t@) == Some(v@),
            None => quoted_value(t@) is None,
        },
{
    proof {
        reveal_strlit("= \"");
    }
    match piece_after_exec(t, "= \"") {
        Some(v) => Some(trim_end_char_exec(&v, '"')),
        None => None,
    }
}

/// A port as a listing describes it.
pub ghost struct PortRow {
    pub id: u32,
    pub node_id: u32,
    pub direction: Seq<char>,
    pub name: Seq<char>,
}

/// A port read from `pw-cli ls Port`.
#[derive(Debug)]
pub struct ListedPort {
    pub id: u32,
    pub node_id: u32,
    pub direction: Vec<char>,
    pub name: Vec<char>,
}

impl View for ListedPort {
    type V = PortRow;

    open spec fn view(&self) -> PortRow {
        PortRow { id: self.id, node_id: self.node_id, direction: self.direction@, name: self.name@ }
    }
}

/// The views of a list of ports.
pub open spec fn rows_of(v: Seq<ListedPort>) -> Seq<PortRow> {
    v.map_values(|p: ListedPort| p@)
}

/// First pass over one line: follow `id` lines, and record each port of
/// `from` or `to` when its `node.id` line comes.
pub open spec fn ports_step(st: (Option<u32>, Seq<PortRow>), line: Seq<char>, from: u32, to: u32) -> (
    Option<u32>,
    Seq<PortRow>,
) {
    let t = trim_start(line);
    if "id "@.is_prefix_of(t) {
        (header_id(t, st.0), st.1)
    } else {
        match st.0 {
            None => st,
            Some(id) => if "node.id = "@.is_prefix_of(t) {
                match quoted_value(t) {
                    Some(v) => match parse_u32_spec(v) {
                        Some(n) => if n == from || n == to {
                            (st.0, st.1.push(PortRow { id, node_id: n, direction: seq![], name: seq![] }))
                        } else {
                            st
                        },
                        None => st,
                    },
                    None => st,
                }
            } else {
                st
            },
        }
    }
}

/// First pass over a listing.
pub open spec fn ports_pass(lines: Seq<Seq<char>>, from: u32, to: u32) -> (Option<u32>, Seq<PortRow>)
    decreases lines.len(),
{
    if lines.len() == 0 {
        (None, seq![])
    } else {
        ports_step(ports_pass(lines.drop_last(), from, to), lines.last(), from, to)
    }
}

/// Index of the first row with the given port id, from `i` on.
pub open spec fn first_row_from(rows: Seq<PortRow>, id: u32, i: int) -> Option<int>
    decreases rows.len() - i,
{
    if i < 0 || i >= rows.len() {
        None
    } else if rows[i].id == id {
        Some(i)
    } else {
        first_row_from(rows, id, i + 1)
    }
}

/// The first row of port `id` takes the given direction.
pub open spec fn with_direction(rows: Seq<PortRow>, id: u32, d: Seq<char>) -> Seq<PortRow> {
    match first_row_from(rows, id, 0) {
        Some(j) => rows.update(j, PortRow { direction: d, ..rows[j] }),
        None => rows,
    }
}

/// The first row of port `id` takes the given name.
pub open spec fn with_name(rows: Seq<PortRow>, id: u32, n: Seq<char>) -> Seq<PortRow> {
    match first_row_from(rows, id, 0) {
        Some(j) => rows.update(j, PortRow { name: n, ..rows[j] }),
        None => rows,
    }
}

/// Second pass over one line: fill in the direction and the name of the
/// recorded ports.
pub open spec fn details_step(st: (Option<u32>, Seq<PortRow>), line: Seq<char>) -> (Option<u32>, Seq<PortRow>) {
    let t = trim_start(line);
    if "id "@.is_prefix_of(t) {
        (header_id(t, st.0), st.1)
    } else {
        match st.0 {
            None => st,
            Some(id) => {
                let r1 = if "port.direction = "@.is_prefix_of(t) {
                    match quoted_value(t) {
                        Some(v) => with_direction(st.1, id, v),
                        None => st.1,
                    }
                } else {
                    st.1
                };
                let r2 = if "port.name = "@.is_prefix_of(t) {
                    match quoted_value(t) {
                        Some(v) => with_name(r1, id, v),
                        None => r1,
                    }
                } else {
                    r1
                };
                (st.0, r2)
            },
        }
    }
}

/// Second pass over a listing, starting from the recorded ports.
pub open spec fn details_pass(lines: Seq<Seq<char>>, rows: Seq<PortRow>) -> (Option<u32>, Seq<PortRow>)
    decreases lines.len(),
{
    if lines.len() == 0 {
        (None, rows)
    } else {
        details_step(details_pass(lines.drop_last(), rows), lines.last())
    }
}

/// The ports of a listing that belong to `from` or `to`, with their
/// direction and name.
pub open spec fn listed_ports(text: Seq<char>, from: u32, to: u32) -> Seq<PortRow> {
    let lines = lines_of(text);
    details_pass(lines, ports_pass(lines, from, to).1).1
}

fn find_row(rows: &Vec<ListedPort>, id: u32) -> (r: Option<usize>)
    ensures
        match r {
            Some(j) => j < rows@.len() && first_row_from(rows_of(rows@), id, 0) == Some(j as int),
            None => first_row_from(rows_of(rows@), id, 0) is None,
        },
{
    let mut j: usize = 0;
    while j < rows.len()
        invariant
            j <= rows.len(),
            first_row_from(rows_of(rows@), id, 0) == first_row_from(rows_of(rows@), id, j as int),
        decreases rows.len() - j,
    {
        if rows[j].id == id {
            return Some(j);
        }
        j = j + 1;
    }
    None
}

fn take_port_ids(text: &Vec<Vec<char>>, from: u32, to: u32, ls: Ghost<Seq<Seq<char>>>) -> (r: Vec<ListedPort>)
    requires
        text@.len() == ls@.len(),
        forall|i: int| 0 <= i < text@.len() ==> (#[trigger] text@[i])@ == ls@[i],
    ensures
        rows_of(r@) == ports_pass(ls@, from, to).1,
{
    let mut rows: Vec<ListedPort> = Vec::new();
    let mut cur: Option<u32> = None;
    let mut i: usize = 0;
    while i < text.len()
        invariant
            i <= text@.len(),
            text@.len() == ls@.len(),
            forall|x: int| 0 <= x < text@.len() ==> (#[trigger] text@[x])@ == ls@[x],
            (cur, rows_of(rows@)) == ports_pass(ls@.take(i as int), from, to),
        decreases text.len() - i,
    {
        assert(ls@.take(i + 1).drop_last() =~= ls@.take(i as int));
        assert(ls@.take(i + 1).last() == text@[i as int]@);
        let t = trim_start_chars(&text[i]);
        if starts_with_str(&t, "id ") {
            cur = header_id_exec(&t, cur);
        } else {
            match cur {
                None => {},
                Some(id) => {
                    if starts_with_str(&t, "node.id = ") {
                        match quoted_value_exec(&t) {
                            Some(v) => match parse_u32(&v) {
                                Some(n) => {
                                    if n == from || n == to {
                                        let ghost before = rows_of(rows@);
                                        rows.push(ListedPort { id, node_id: n, direction: Vec::new(), name: Vec::new() });
                                        assert(rows_of(rows@) =~= before.push(PortRow { id, node_id: n, direction: seq![], name: seq![] }));
                                    }
                                },
                                None => {},
                            },
                            None => {},
                        }
                    }
                },
            }
        }
        i = i + 1;
    }
    assert(ls@.take(text@.len() as int) =~= ls@);
    rows
}

fn fill_details(text: &Vec<Vec<char>>, rows: Vec<ListedPort>, ls: Ghost<Seq<Seq<char>>>) -> (r: Vec<ListedPort>)
    requires
        text@.len() == ls@.len(),
        forall|i: int| 0 <= i < text@.len() ==> (#[trigger] text@[i])@ == ls@[i],
    ensures
        rows_of(r@) == details_pass(ls@, rows_of(rows@)).1,
{
    let ghost start = rows_of(rows@);
    let mut rows = rows;
    let mut cur: Option<u32> = None;
    let mut i: usize = 0;
    while i < text.len()
        invariant
            i <= text@.len(),
            text@.len() == ls@.len(),
            forall|x: int| 0 <= x < text@.len() ==> (#[trigger] text@[x])@ == ls@[x],
            (cur, rows_of(rows@)) == details_pass(ls@.take(i as int), start),
        decreases text.len() - i,
    {
        assert(ls@.take(i + 1).drop_last() =~= ls@.take(i as int));
        assert(ls@.take(i + 1).last() == text@[i as int]@);
        let t = trim_start_chars(&text[i]);
        if starts_with_str(&t, "id ") {
            cur = header_id_exec(&t, cur);
        } else {
            match cur {
                None => {},
                Some(id) => {
                    if starts_with_str(&t, "port.direction = ") {
                        match quoted_value_exec(&t) {
                            Some(v) => match find_row(&rows, id) {
                                Some(j) => {
                                    let ghost before = rows_of(rows@);
                                    rows[j].direction = v;
                                    assert(rows_of(rows@) =~= with_direction(before, id, quoted_value(t@)->0));
                                },
                                None => {},
                            },
                            None => {},
                        }
                    }
                    if starts_with_str(&t, "port.name = ") {
                        match quoted_value_exec(&t) {
                            Some(v) => match find_row(&rows, id) {
                                Some(j) => {
                                    let ghost before = rows_of(rows@);
                                    rows[j].name = v;
                                    assert(rows_of(rows@) =~= with_name(before, id, quoted_value(t@)->0));
                                },
                                None => {},
                            },
                            None => {},
                        }
                    }
                },
            }
        }
        i = i + 1;
    }
    assert(ls@.take(text@.len() as int) =~= ls@);
    rows
}

/// The rows of node `node` with direction `dir`, in order.
pub open spec fn select_rows(rows: Seq<PortRow>, node: u32, dir: Seq<char>) -> Seq<PortRow>
    decreases rows.len(),
{
    if rows.len() == 0 {
        seq![]
    } else {
        let r = select_rows(rows.drop_last(), node, dir);
        if rows.last().node_id == node && rows.last().direction == dir {
            r.push(rows.last())
        } else {
            r
        }
    }
}

/// Where the channel suffix of a port name starts: just after its last `_`,
/// or at 0 when it has none.
pub open spec fn channel_start(s: Seq<char>) -> int
    decreases s.len(),
{
    if s.len() == 0 {
        0
    } else if s.last() == '_' {
        s.len() as int
    } else {
        channel_start(s.drop_last())
    }
}

/// The channel a port name carries: its suffix after the last `_`
/// (`output_FL` and `playback_FL` carry `FL`; `capture_MONO` carries `MONO`).
pub open spec fn channel_of(s: Seq<char>) -> Seq<char> {
    s.skip(channel_start(s))
}

/// Two port names carry the same channel suffix (FL with FL, FR with FR,
/// RL with RL, LFE with LFE, ...).
pub open spec fn same_channel(a: Seq<char>, b: Seq<char>) -> bool {
    channel_of(a) == channel_of(b)
}

/// Index of the first input port, from `i` on, on the channel of `name`.
pub open spec fn first_same_channel(ins: Seq<PortRow>, name: Seq<char>, i: int) -> Option<int>
    decreases ins.len() - i,
{
    if i < 0 || i >= ins.len() {
        None
    } else if same_channel(name, ins[i].name) {
        Some(i)
    } else {
        first_same_channel(ins, name, i + 1)
    }
}

/// Each output port goes to the first input port on its channel; with no
/// such port and a single input port, everything is mixed down into it.
pub open spec fn pair_ports(outs: Seq<PortRow>, ins: Seq<PortRow>) -> Seq<(u32, u32)>
    decreases outs.len(),
{
    if outs.len() == 0 {
        seq![]
    } else {
        let rest = pair_ports(outs.drop_last(), ins);
        let o = outs.last();
        match first_same_channel(ins, o.name, 0) {
            Some(j) => rest.push((o.id, ins[j].id)),
            None => if ins.len() == 1 {
                rest.push((o.id, ins[0].id))
            } else {
                rest
            },
        }
    }
}

/// The (output port, input port) pairs to link for a link from node `from`
/// to node `to`, given the text of `pw-cli ls Port`.
pub open spec fn port_links(text: Seq<char>, from: u32, to: u32) -> Seq<(u32, u32)> {
    let rows = listed_ports(text, from, to);
    pair_ports(select_rows(rows, from, "out"@), select_rows(rows, to, "in"@))
}

fn select_ports<'a>(rows: &'a Vec<ListedPort>, node: u32, dir: &str) -> (r: Vec<&'a ListedPort>)
    ensures
        r@.map_values(|p: &ListedPort| p@) == select_rows(rows_of(rows@), node, dir@),
{
    let mut r: Vec<&ListedPort> = Vec::new();
    let mut i: usize = 0;
    while i < rows.len()
        invariant
            i <= rows.len(),
            r@.map_values(|p: &ListedPort| p@) == select_rows(rows_of(rows@).take(i as int), node, dir@),
        decreases rows.len() - i,
    {
        assert(rows_of(rows@).take(i + 1).drop_last() =~= rows_of(rows@).take(i as int));
        assert(rows_of(rows@).take(i + 1).last() == rows@[i as int]@);
        let p = &rows[i];
        let ghost before = r@.map_values(|q: &ListedPort| q@);
        if p.node_id == node && equals_str(&p.direction, dir) {
            r.push(p);
            assert(r@.map_values(|q: &ListedPort| q@) =~= before.push(p@));
        }
        i = i + 1;
    }
    assert(rows_of(rows@).take(rows.len() as int) =~= rows_of(rows@));
    r
}

proof fn lemma_channel_start_bounds(s: Seq<char>)
    ensures
        0 <= channel_start(s) <= s.len(),
    decreases s.len(),
{
    if s.len() > 0 && s.last() != '_' {
        lemma_channel_start_bounds(s.drop_last());
    }
}

/// The channel suffix of a port name.
fn channel_chars(s: &Vec<char>) -> (r: Vec<char>)
    ensures
        r@ == channel_of(s@),
{
    let mut e = s.len();
    assert(s@.take(e as int) =~= s@);
    while e > 0 && s[e - 1] != '_'
        invariant
            e <= s@.len(),
            channel_start(s@) == channel_start(s@.take(e as int)),
        decreases e,
    {
        assert(s@.take(e as int).drop_last() =~= s@.take(e - 1));
        e = e - 1;
    }
    proof {
        if e > 0 {
            assert(s@.take(e as int).last() == '_');
        }
        lemma_channel_start_bounds(s@);
    }
    slice_chars(s, e, s.len())
}

fn same_channel_exec(a: &Vec<char>, b: &Vec<char>) -> (r: bool)
    ensures
        r == same_channel(a@, b@),
{
    compare_eq(&channel_chars(a), &channel_chars(b))
}

fn compare_eq(a: &Vec<char>, b: &Vec<char>) -> (r: bool)
    ensures
        r == (a@ == b@),
{
    crate::text::compare_chars(a, b) == crate::text::CharOrder::Equal
}

fn first_channel_match(ins: &Vec<&ListedPort>, name: &Vec<char>) -> (r: Option<usize>)
    ensures
        match r {
            Some(j) => j < ins@.len() && first_same_channel(ins@.map_values(|p: &ListedPort| p@), name@, 0)
                == Some(j as int),
            None => first_same_channel(ins@.map_values(|p: &ListedPort| p@), name@, 0) is None,
        },
{
    let ghost is = ins@.map_values(|p: &ListedPort| p@);
    let mut j: usize = 0;
    while j < ins.len()
        invariant
            j <= ins.len(),
            is == ins@.map_values(|p: &ListedPort| p@),
            first_same_channel(is, name@, 0) == first_same_channel(is, name@, j as int),
        decreases ins.len() - j,
    {
        if same_channel_exec(name, &ins[j].name) {
            return Some(j);
        }
        j = j + 1;
    }
    None
}

/// The (output port, input port) pairs to link node `from` to node `to`,
/// read from the text `pw-cli ls Port` prints.
pub fn plan_port_links(text: &str, from: u32, to: u32) -> (r: Vec<(u32, u32)>)
    ensures
        r@ == port_links(text@, from, to),
{
    let chars = chars_of(text);
    let lines = split_lines(&chars);
    let ghost ls = lines_of(text@);
    let rows = take_port_ids(&lines, from, to, Ghost(ls));
    let rows = fill_details(&lines, rows, Ghost(ls));
    let outs = select_ports(&rows, from, "out");
    let ins = select_ports(&rows, to, "in");
    pair_selected(&outs, &ins)
}

fn pair_selected(outs: &Vec<&ListedPort>, ins: &Vec<&ListedPort>) -> (r: Vec<(u32, u32)>)
    ensures
        r@ == pair_ports(outs@.map_values(|p: &ListedPort| p@), ins@.map_values(|p: &ListedPort| p@)),
{
    let ghost os = outs@.map_values(|p: &ListedPort| p@);
    let ghost is = ins@.map_values(|p: &ListedPort| p@);
    let mut r: Vec<(u32, u32)> = Vec::new();
    let mut i: usize = 0;
    while i < outs.len()
        invariant
            i <= outs.len(),
            os == outs@.map_values(|p: &ListedPort| p@),
            is == ins@.map_values(|p: &ListedPort| p@),
            r@ == pair_ports(os.take(i as int), is),
        decreases outs.len() - i,
    {
        assert(os.take(i + 1).drop_last() =~= os.take(i as int));
        assert(os.take(i + 1).last() == os[i as int]);
        let o = outs[i];
        match first_channel_match(ins, &o.name) {
            Some(j) => {
                r.push((o.id, ins[j].id));
            },
            None => {
                if ins.len() == 1 {
                    r.push((o.id, ins[0].id));
                }
            },
        }
        i = i + 1;
    }
    assert(os.take(outs.len() as int) =~= os);
    r
}

/// A media class of application streams.
pub open spec fn is_stream_class(c: Seq<char>) -> bool {
    c == "Stream/Output/Audio"@ || c == "Stream/Input/Audio"@
}

/// One line of `pw-cli ls Node` while collecting the application streams:
/// the state is the current id, the current media class and the ids found.
pub open spec fn streams_step(st: (Option<u32>, Seq<char>, Seq<u32>), line: Seq<char>) -> (
    Option<u32>,
    Seq<char>,
    Seq<u32>,
) {
    let t = trim_start(line);
    if "id "@.is_prefix_of(t) {
        match word_at(t, 1) {
            Some(w) => (parse_u32_spec(trim_end_char(w, ',')), seq![], st.2),
            None => st,
        }
    } else if "media.class = "@.is_prefix_of(t) {
        match quoted_value(t) {
            Some(v) => (st.0, v, st.2),
            None => st,
        }
    } else if "node.name = "@.is_prefix_of(t) {
        match st.0 {
            Some(id) => if is_stream_class(st.1) {
                (st.0, st.1, st.2.push(id))
            } else {
                st
            },
            None => st,
        }
    } else {
        st
    }
}

pub open spec fn streams_pass(lines: Seq<Seq<char>>) -> (Option<u32>, Seq<char>, Seq<u32>)
    decreases lines.len(),
{
    if lines.len() == 0 {
        (None, seq![], seq![])
    } else {
        streams_step(streams_pass(lines.drop_last()), lines.last())
    }
}

/// The application streams a `pw-cli ls Node` listing shows, each time its
/// `node.name` line comes after a stream media class.
pub open spec fn listed_streams(text: Seq<char>) -> Seq<u32> {
    streams_pass(lines_of(text)).2
}

/// The ids of the application streams in the text `pw-cli ls Node` prints:
/// the streams to unmute and bring back to full volume on start-up, since a
/// crash may have left them muted.
pub fn streams_to_reset(text: &str) -> (r: Vec<u32>)
    ensures
        r@ == listed_streams(text@),
{
    let chars = chars_of(text);
    let lines = split_lines(&chars);
    let ghost ls = lines_of(text@);
    let mut cur: Option<u32> = None;
    let mut class: Vec<char> = Vec::new();
    let mut ids: Vec<u32> = Vec::new();
    let mut i: usize = 0;
    while i < lines.len()
        invariant
            i <= lines@.len(),
            lines@.len() == ls.len(),
            forall|x: int| 0 <= x < lines@.len() ==> (#[trigger] lines@[x])@ == ls[x],
            (cur, class@, ids@) == streams_pass(ls.take(i as int)),
        decreases lines.len() - i,
    {
        assert(ls.take(i + 1).drop_last() =~= ls.take(i as int));
        assert(ls.take(i + 1).last() == lines@[i as int]@);
        let t = trim_start_chars(&lines[i]);
        if starts_with_str(&t, "id ") {
            match second_word(&t) {
                Some(w) => {
                    cur = parse_u32(&trim_end_char_exec(&w, ','));
                    class = Vec::new();
                },
                None => {},
            }
        } else if starts_with_str(&t, "media.class = ") {
            match quoted_value_exec(&t) {
                Some(v) => {
                    class = v;
                },
                None => {},
            }
        } else if starts_with_str(&t, "node.name = ") {
            match cur {
                Some(id) => {
                    if equals_str(&class, "Stream/Output/Audio") || equals_str(&class, "Stream/Input/Audio") {
                        ids.push(id);
                    }
                },
                None => {},
            }
        }
        i = i + 1;
    }
    assert(ls.take(lines@.len() as int) =~= ls);
    ids
}

/// One line of `pw-cli ls Node` while looking for the node called `name`:
/// the state is the current id and the id found first.
pub open spec fn name_step(st: (Option<u32>, Option<u32>), line: Seq<char>, name: Seq<char>) -> (
    Option<u32>,
    Option<u32>,
) {
    let t = trim_start(line);
    if "id "@.is_prefix_of(t) {
        (header_id(t, st.0), st.1)
    } else if "node.name = "@.is_prefix_of(t) && st.1 is None && st.0 is Some && quoted_value(t)
        == Some(name) {
        (st.0, st.0)
    } else {
        st
    }
}

pub open spec fn name_pass(lines: Seq<Seq<char>>, name: Seq<char>) -> (Option<u32>, Option<u32>)
    decreases lines.len(),
{
    if lines.len() == 0 {
        (None, None)
    } else {
        name_step(name_pass(lines.drop_last(), name), lines.last(), name)
    }
}

/// The id of the first node whose `node.name` is `name` in the text
/// `pw-cli ls Node` prints.
pub open spec fn listed_node_id(text: Seq<char>, name: Seq<char>) -> Option<u32> {
    name_pass(lines_of(text), name).1
}

/// Finds the id of a node by its `node.name` in a `pw-cli ls Node` listing.
pub fn node_id_by_name(text: &str, name: &str) -> (r: Option<u32>)
    ensures
        r == listed_node_id(text@, name@),
{
    let chars = chars_of(text);
    let wanted = chars_of(name);
    let lines = split_lines(&chars);
    let ghost ls = lines_of(text@);
    let mut cur: Option<u32> = None;
    let mut found: Option<u32> = None;
    let mut i: usize = 0;
    while i < lines.len()
        invariant
            i <= lines@.len(),
            lines@.len() == ls.len(),
            wanted@ == name@,
            forall|x: int| 0 <= x < lines@.len() ==> (#[trigger] lines@[x])@ == ls[x],
            (cur, found) == name_pass(ls.take(i as int), name@),
        decreases lines.len() - i,
    {
        assert(ls.take(i + 1).drop_last() =~= ls.take(i as int));
        assert(ls.take(i + 1).last() == lines@[i as int]@);
        let t = trim_start_chars(&lines[i]);
        if starts_with_str(&t, "id ") {
            cur = header_id_exec(&t, cur);
        } else if starts_with_str(&t, "node.name = ") && found.is_none() && cur.is_some() {
            match quoted_value_exec(&t) {
                Some(v) => {
                    if compare_eq(&v, &wanted) {
                        found = cur;
                    }
                },
                None => {},
            }
        }
        i = i + 1;
    }
    assert(ls.take(lines@.len() as int) =~= ls);
    found
}

} // verus!
