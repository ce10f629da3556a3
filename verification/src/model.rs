//! The mathematical model of the transformation: how the input text falls
//! into lines, how each line is classified, and what one pass emits.

use vstd::prelude::*;
use crate::num::{
    DecV,
    parse_dec_v,
    layer_of,
    shifted_z,
    round_to,
    fmt_fixed,
    dec_digits,
};
use crate::scan::{
    starts_with,
    contains_sub,
    contains_char,
    capture,
    replace_all,
    trim_ws,
    has_sub_at,
};

verus! {

/// The wall context the classifier stands in.
#[derive(Clone, Copy, PartialEq, Eq, Structural, Debug)]
pub enum Wall {
    External,
    Internal,
    Other,
}

/// The per-pass constants: layer height, configured extrusion multiplier,
/// and the count of layer-change lines in the input.
pub struct CfgV {
    pub h: DecV,
    pub mult: DecV,
    pub total_layers: nat,
}

/// The classifier's state between lines.
pub struct StV {
    pub layer: nat,
    pub z: DecV,
    pub wall: Wall,
    pub blocks: nat,
    pub inside: bool,
    pub shifted: bool,
}

/// The state a pass starts in: height zero, outside any wall and block.
pub open spec fn init_state() -> StV {
    StV {
        layer: 0,
        z: DecV { num: 0, scale: 0 },
        wall: Wall::Other,
        blocks: 0,
        inside: false,
        shifted: false,
    }
}

pub open spec fn is_layer_change(line: Seq<char>) -> bool {
    starts_with(line, "G1 Z"@)
}

pub open spec fn is_external_marker(line: Seq<char>) -> bool {
    contains_sub(line, ";TYPE:External perimeter"@) || contains_sub(line, ";TYPE:Outer wall"@)
}

pub open spec fn is_internal_marker(line: Seq<char>) -> bool {
    contains_sub(line, ";TYPE:Perimeter"@) || contains_sub(line, ";TYPE:Inner wall"@)
}

pub open spec fn is_any_marker(line: Seq<char>) -> bool {
    contains_sub(line, ";TYPE:"@)
}

pub open spec fn is_motion(line: Seq<char>) -> bool {
    starts_with(line, "G1"@)
}

/// A motion line with both planar fields and an extrusion letter: it
/// belongs to a wall block.
pub open spec fn is_block_start_line(line: Seq<char>) -> bool {
    is_motion(line) && contains_char(line, 'X') && contains_char(line, 'Y') && contains_char(
        line,
        'E',
    )
}

/// A motion line with both planar fields and a feed-rate letter: a travel
/// move that ends a wall block.
pub open spec fn is_block_end_line(line: Seq<char>) -> bool {
    is_motion(line) && contains_char(line, 'X') && contains_char(line, 'Y') && contains_char(
        line,
        'F',
    )
}

/// The parsed value of the leftmost numeric field headed by `l`.
pub open spec fn field_value(line: Seq<char>, l: char) -> Option<DecV> {
    match capture(line, l) {
        Some(txt) => parse_dec_v(txt),
        None => None,
    }
}

/// A height written with three digits after the point.
pub open spec fn z_text(v: DecV) -> Seq<char> {
    fmt_fixed(round_to(v.num, v.scale, 3), 3)
}

/// The synthetic instruction that moves to the shifted height `z + h/2`
/// ahead of an odd-numbered block.
pub open spec fn shift_line(cfg: CfgV, z: DecV, b: nat) -> Seq<char> {
    "G1 Z"@ + z_text(shifted_z(z, cfg.h)) + " ; Shifted Z for block #"@ + dec_digits(b)
}

/// The synthetic instruction that reaffirms the true height ahead of an
/// even-numbered block.
pub open spec fn reset_line(z: DecV, b: nat) -> Seq<char> {
    "G1 Z"@ + z_text(z) + " ; Reset Z for block #"@ + dec_digits(b)
}

/// Which of the three extrusion-rescaling rules applies on `layer`.
pub enum RuleV {
    FirstLayer,
    LastLayer,
    Configured,
}

pub open spec fn rule_of(layer: nat, total: nat) -> RuleV {
    if layer == 0 {
        RuleV::FirstLayer
    } else if layer + 1 == total {
        RuleV::LastLayer
    } else {
        RuleV::Configured
    }
}

/// The extrusion multiplier the applicable rule prescribes: 1.5 on the
/// first layer, 0.5 on the last, else the configured multiplier.
pub open spec fn factor_of(cfg: CfgV, layer: nat) -> DecV {
    match rule_of(layer, cfg.total_layers) {
        RuleV::FirstLayer => DecV { num: 15, scale: 1 },
        RuleV::LastLayer => DecV { num: 5, scale: 1 },
        RuleV::Configured => cfg.mult,
    }
}

/// The annotation naming the rule that fired and the block number.
pub open spec fn annot_of(layer: nat, total: nat, b: nat) -> Seq<char> {
    match rule_of(layer, total) {
        RuleV::FirstLayer => " ; Adjusted E for first layer, block #"@ + dec_digits(b),
        RuleV::LastLayer => " ; Adjusted E for last layer, block #"@ + dec_digits(b),
        RuleV::Configured => " ; Adjusted E for extrusionMultiplier, block #"@ + dec_digits(b),
    }
}

/// A line of a shifted block with its extrusion field rescaled, trimmed
/// and annotated; a line without a parsable extrusion field is untouched.
pub open spec fn rescale_line(cfg: CfgV, layer: nat, b: nat, line: Seq<char>) -> Seq<char> {
    match field_value(line, 'E') {
        Some(ev) => {
            let f = factor_of(cfg, layer);
            let units = round_to(ev.num * f.num, ev.scale + f.scale, 5);
            trim_ws(replace_all(line, 'E', "E"@ + fmt_fixed(units, 5))) + annot_of(
                layer,
                cfg.total_layers,
                b,
            )
        },
        None => line,
    }
}

/// One step of the classifier: the state after `line` and the lines
/// emitted for it, in order.
pub open spec fn step(cfg: CfgV, st: StV, line: Seq<char>) -> (StV, Seq<Seq<char>>) {
    if is_layer_change(line) {
        match field_value(line, 'Z') {
            Some(zv) => (
                StV { layer: layer_of(zv, cfg.h), z: zv, blocks: 0, ..st },
                seq![line],
            ),
            None => (st, seq![line]),
        }
    } else if is_external_marker(line) {
        (StV { wall: Wall::External, inside: false, ..st }, seq![line])
    } else if is_internal_marker(line) {
        (StV { wall: Wall::Internal, inside: false, ..st }, seq![line])
    } else if is_any_marker(line) {
        (StV { wall: Wall::Other, inside: false, ..st }, seq![line])
    } else if st.wall == Wall::Internal && is_block_start_line(line) {
        if !st.inside {
            let b = st.blocks + 1;
            if b % 2 == 1 {
                (
                    StV { blocks: b, inside: true, shifted: true, ..st },
                    seq![shift_line(cfg, st.z, b), rescale_line(cfg, st.layer, b, line)],
                )
            } else {
                (
                    StV { blocks: b, inside: true, shifted: false, ..st },
                    seq![reset_line(st.z, b), line],
                )
            }
        } else {
            if st.shifted {
                (st, seq![rescale_line(cfg, st.layer, st.blocks, line)])
            } else {
                (st, seq![line])
            }
        }
    } else if st.wall == Wall::Internal && is_block_end_line(line) {
        (StV { inside: false, ..st }, seq![line])
    } else {
        (st, seq![line])
    }
}

/// The whole pass from line `i` on: final state and every emitted line.
pub open spec fn run_from(cfg: CfgV, st: StV, lines: Seq<Seq<char>>, i: int) -> (
    StV,
    Seq<Seq<char>>,
)
    decreases lines.len() - i,
{
    if i < 0 || i >= lines.len() {
        (st, Seq::empty())
    } else {
        let first = step(cfg, st, lines[i]);
        let rest = run_from(cfg, first.0, lines, i + 1);
        (rest.0, first.1 + rest.1)
    }
}

/// The metadata prefix that names the layer height.
pub open spec fn meta_prefix() -> Seq<char> {
    "; layer_height = "@
}

/// Index of the first line carrying the layer-height metadata.
pub open spec fn find_meta(lines: Seq<Seq<char>>, i: int) -> Option<int>
    decreases lines.len() - i,
{
    if i < 0 || i >= lines.len() {
        None
    } else if starts_with(lines[i], meta_prefix()) {
        Some(i)
    } else {
        find_meta(lines, i + 1)
    }
}

/// The layer height a metadata line names: the text after its `=` sign
/// (which the prefix fixes at position 15), trimmed and parsed.
pub open spec fn meta_value(line: Seq<char>) -> Option<DecV> {
    parse_dec_v(trim_ws(line.subrange(16, line.len() as int)))
}

/// How many lines announce a layer change.
pub open spec fn count_layer_lines(lines: Seq<Seq<char>>, i: int) -> nat
    decreases lines.len() - i,
{
    if i < 0 || i >= lines.len() {
        0
    } else {
        (if is_layer_change(lines[i]) {
            1nat
        } else {
            0nat
        }) + count_layer_lines(lines, i + 1)
    }
}

/// First newline at or after `i`, or the text's length.
pub open spec fn find_nl(s: Seq<char>, i: int) -> int
    decreases s.len() - i,
{
    if i < 0 || i >= s.len() {
        s.len() as int
    } else if s[i] == '\n' {
        i
    } else {
        find_nl(s, i + 1)
    }
}

pub proof fn lemma_find_nl_bounds(s: Seq<char>, i: int)
    requires
        0 <= i <= s.len(),
    ensures
        i <= find_nl(s, i) <= s.len(),
    decreases s.len() - i,
{
    if i < s.len() && s[i] != '\n' {
        lemma_find_nl_bounds(s, i + 1);
    }
}

/// The text from `i` on split at newlines, each line stripped of one
/// carriage return standing right before its newline; a final line
/// without a newline is kept as it is, and a trailing newline opens no
/// empty final line.
pub open spec fn lines_from(s: Seq<char>, i: int) -> Seq<Seq<char>>
    decreases s.len() - i,
    via lines_from_dec
{
    if i < 0 || i >= s.len() {
        Seq::empty()
    } else {
        let j = find_nl(s, i);
        let raw = s.subrange(i, j);
        if j == s.len() {
            seq![raw]
        } else {
            let line = if raw.len() > 0 && raw[raw.len() - 1] == '\r' {
                raw.drop_last()
            } else {
                raw
            };
            seq![line] + lines_from(s, j + 1)
        }
    }
}

#[via_fn]
proof fn lines_from_dec(s: Seq<char>, i: int) {
    if 0 <= i < s.len() {
        lemma_find_nl_bounds(s, i);
    }
}

/// All emitted lines joined with single newlines.
pub open spec fn join_from(lines: Seq<Seq<char>>, i: int) -> Seq<char>
    decreases lines.len() - i,
{
    if i < 0 || i >= lines.len() {
        Seq::empty()
    } else if i == lines.len() - 1 {
        lines[i]
    } else {
        lines[i] + seq!['\n'] + join_from(lines, i + 1)
    }
}

/// The constants a pass runs under, once the metadata line is found and
/// its value parses.
pub open spec fn cfg_of(text: Seq<char>, mult: DecV) -> CfgV {
    let lines = lines_from(text, 0);
    CfgV {
        h: meta_value(lines[find_meta(lines, 0)->Some_0])->Some_0,
        mult,
        total_layers: count_layer_lines(lines, 0),
    }
}

/// The full output text of a pass over `text` with multiplier `mult`.
pub open spec fn transformed(text: Seq<char>, mult: DecV) -> Seq<char> {
    join_from(run_from(cfg_of(text, mult), init_state(), lines_from(text, 0), 0).1, 0)
}

/// A substring occurrence carries every prefix of the pattern with it.
proof fn lemma_sub_of_prefix(s: Seq<char>, p: Seq<char>, q: Seq<char>, i: int)
    requires
        has_sub_at(s, p, i),
        q.len() <= p.len(),
        q == p.subrange(0, q.len() as int),
    ensures
        has_sub_at(s, q, i),
{
    assert forall|t: int| 0 <= t < q.len() implies s.subrange(i, i + q.len() as int)[t]
        == q[t] by {
        assert(p[t] == s.subrange(i, i + p.len() as int)[t]);
    }
    assert(s.subrange(i, i + q.len() as int) =~= q);
}

/// Every wall-type marker is in particular a marker line.
pub proof fn lemma_marker_is_any(line: Seq<char>)
    ensures
        is_external_marker(line) ==> is_any_marker(line),
        is_internal_marker(line) ==> is_any_marker(line),
{
    reveal_strlit(";TYPE:External perimeter");
    reveal_strlit(";TYPE:Outer wall");
    reveal_strlit(";TYPE:Perimeter");
    reveal_strlit(";TYPE:Inner wall");
    reveal_strlit(";TYPE:");
    if contains_sub(line, ";TYPE:External perimeter"@) {
        let i = choose|i: int| has_sub_at(line, ";TYPE:External perimeter"@, i);
        assert(";TYPE:"@ =~= ";TYPE:External perimeter"@.subrange(0, 6));
        lemma_sub_of_prefix(line, ";TYPE:External perimeter"@, ";TYPE:"@, i);
    }
    if contains_sub(line, ";TYPE:Outer wall"@) {
        let i = choose|i: int| has_sub_at(line, ";TYPE:Outer wall"@, i);
        assert(";TYPE:"@ =~= ";TYPE:Outer wall"@.subrange(0, 6));
        lemma_sub_of_prefix(line, ";TYPE:Outer wall"@, ";TYPE:"@, i);
    }
    if contains_sub(line, ";TYPE:Perimeter"@) {
        let i = choose|i: int| has_sub_at(line, ";TYPE:Perimeter"@, i);
        assert(";TYPE:"@ =~= ";TYPE:Perimeter"@.subrange(0, 6));
        lemma_sub_of_prefix(line, ";TYPE:Perimeter"@, ";TYPE:"@, i);
    }
    if contains_sub(line, ";TYPE:Inner wall"@) {
        let i = choose|i: int| has_sub_at(line, ";TYPE:Inner wall"@, i);
        assert(";TYPE:"@ =~= ";TYPE:Inner wall"@.subrange(0, 6));
        lemma_sub_of_prefix(line, ";TYPE:Inner wall"@, ";TYPE:"@, i);
    }
}

/// A line that is no motion instruction and carries no wall-type marker,
/// met outside any wall block, is emitted exactly once, byte for byte,
/// and leaves the state untouched.
pub proof fn lemma_pass_through(cfg: CfgV, st: StV, line: Seq<char>)
    requires
        !is_motion(line),
        !is_any_marker(line),
        !st.inside,
    ensures
        step(cfg, st, line) == (st, seq![line]),
{
    reveal_strlit("G1 Z");
    reveal_strlit("G1");
    if is_layer_change(line) {
        assert("G1"@ =~= "G1 Z"@.subrange(0, 2));
        lemma_sub_of_prefix(line, "G1 Z"@, "G1"@, 0);
    }
    lemma_marker_is_any(line);
}

/// The guard under which a line opens a new internal-wall block.
pub open spec fn opens_block(st: StV, line: Seq<char>) -> bool {
    &&& !is_layer_change(line)
    &&& !is_external_marker(line)
    &&& !is_internal_marker(line)
    &&& !is_any_marker(line)
    &&& st.wall == Wall::Internal
    &&& is_block_start_line(line)
    &&& !st.inside
}

/// The block counter rises by exactly one when a block opens, resets to
/// zero on a layer change whose height parses, and otherwise stands
/// still.
pub proof fn lemma_block_numbering(cfg: CfgV, st: StV, line: Seq<char>)
    ensures
        is_layer_change(line) && field_value(line, 'Z') is Some ==> step(
            cfg,
            st,
            line,
        ).0.blocks == 0,
        is_layer_change(line) && field_value(line, 'Z') is None ==> step(
            cfg,
            st,
            line,
        ).0.blocks == st.blocks,
        opens_block(st, line) ==> step(cfg, st, line).0.blocks == st.blocks + 1,
        !is_layer_change(line) && !opens_block(st, line) ==> step(cfg, st, line).0.blocks
            == st.blocks,
{
}

/// An odd-numbered block is announced by the shifted height `z + h/2` and
/// marks the block shifted; an even-numbered one by the true height, not
/// shifted.
pub proof fn lemma_shift_parity(cfg: CfgV, st: StV, line: Seq<char>)
    requires
        opens_block(st, line),
    ensures
        step(cfg, st, line).1.len() == 2,
        (st.blocks + 1) % 2 == 1 ==> step(cfg, st, line).1[0] == shift_line(
            cfg,
            st.z,
            st.blocks + 1,
        ) && step(cfg, st, line).0.shifted,
        (st.blocks + 1) % 2 == 0 ==> step(cfg, st, line).1[0] == reset_line(
            st.z,
            st.blocks + 1,
        ) && !step(cfg, st, line).0.shifted,
{
}

/// Exactly one of the three rescaling rules applies, selected solely by
/// the layer index against zero and the last layer.
pub proof fn lemma_rule_exclusive(layer: nat, total: nat)
    ensures
        ({
            let first = layer == 0;
            let last = layer != 0 && layer + 1 == total;
            let mid = layer != 0 && layer + 1 != total;
            &&& (rule_of(layer, total) == RuleV::FirstLayer <==> first)
            &&& (rule_of(layer, total) == RuleV::LastLayer <==> last)
            &&& (rule_of(layer, total) == RuleV::Configured <==> mid)
            &&& (first || last || mid)
            &&& !(first && last)
            &&& !(first && mid)
            &&& !(last && mid)
        }),
{
}

/// While the wall context is External or no wall at all, a line passes
/// through with no height-shift injection and no extrusion rescaling.
pub proof fn lemma_non_internal_immunity(cfg: CfgV, st: StV, line: Seq<char>)
    requires
        st.wall == Wall::External || st.wall == Wall::Other,
    ensures
        step(cfg, st, line).1 == seq![line],
{
}

/// No line of the input marks an internal wall: any line matching the
/// internal marker also matches the external one, which takes priority.
pub open spec fn never_internal(lines: Seq<Seq<char>>) -> bool {
    forall|i: int|
        0 <= i < lines.len() ==> (is_internal_marker(#[trigger] lines[i])
            ==> is_external_marker(lines[i]))
}

/// Round trip at the text level: when the metadata line is present and
/// its value parses, an input whose lines never enter an internal wall is
/// transformed into exactly its own lines rejoined with newlines, with
/// nothing injected and nothing rewritten.
pub proof fn lemma_external_only_output(text: Seq<char>, mult: DecV)
    requires
        find_meta(lines_from(text, 0), 0) is Some,
        meta_value(lines_from(text, 0)[find_meta(lines_from(text, 0), 0)->Some_0]) is Some,
        never_internal(lines_from(text, 0)),
    ensures
        transformed(text, mult) == join_from(lines_from(text, 0), 0),
{
    let lines = lines_from(text, 0);
    lemma_external_only_round_trip(cfg_of(text, mult), init_state(), lines, 0);
    assert(lines.subrange(0, lines.len() as int) =~= lines);
}

/// Round trip: a pass whose lines never enter an internal wall emits
/// exactly the input lines, in order, with nothing injected or rewritten.
pub proof fn lemma_external_only_round_trip(cfg: CfgV, st: StV, lines: Seq<Seq<char>>, i: int)
    requires
        st.wall != Wall::Internal,
        0 <= i <= lines.len(),
        never_internal(lines),
    ensures
        run_from(cfg, st, lines, i).1 == lines.subrange(i, lines.len() as int),
    decreases lines.len() - i,
{
    if i < lines.len() {
        let line = lines[i];
        let st1 = step(cfg, st, line).0;
        lemma_non_internal_immunity(cfg, st, line);
        if is_internal_marker(line) {
            assert(is_external_marker(line));
        }
        assert(st1.wall != Wall::Internal);
        lemma_external_only_round_trip(cfg, st1, lines, i + 1);
        assert(run_from(cfg, st, lines, i).1 =~= lines.subrange(i, lines.len() as int));
    } else {
        assert(lines.subrange(i, i) =~= Seq::<Seq<char>>::empty());
    }
}

} // verus!
