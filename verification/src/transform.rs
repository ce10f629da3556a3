//! The executable transformation pass, verified against the model in
//! `model`: split the text into lines, read the layer height and the
//! layer count, then classify each line, inject synthetic height changes
//! at block starts, and rescale extrusion fields on shifted blocks.

use vstd::prelude::*;
use crate::num::{Dec, pow10, lemma_pow10_vals, push_digits, append_fixed};
use crate::scan::{
    starts_with_str,
    contains_str,
    contains_char_exec,
    find_capture,
    replace_all_str,
    trim_str,
};
use crate::model::{
    Wall,
    CfgV,
    StV,
    init_state,
    step,
    run_from,
    find_meta,
    meta_value,
    meta_prefix,
    count_layer_lines,
    lines_from,
    find_nl,
    join_from,
    cfg_of,
    transformed,
    shift_line,
    reset_line,
    rescale_line,
};

verus! {

/// Why a transformation cannot run at all.
#[derive(Clone, Copy, PartialEq, Eq, Structural, Debug)]
pub enum GcodeError {
    /// No line starts with the layer-height metadata prefix.
    MissingLayerHeight,
    /// The metadata line's value cannot be parsed as a decimal.
    InvalidLayerHeight,
}

/// The views of a vector of lines.
pub open spec fn views_of(ss: Seq<String>) -> Seq<Seq<char>> {
    ss.map_values(|t: String| t@)
}

/// The per-pass constants.
struct Cfg {
    h: Dec,
    mult: Dec,
    total: usize,
}

impl Cfg {
    spec fn wf(&self) -> bool {
        self.h.wf() && self.mult.wf()
    }

    spec fn view(&self) -> CfgV {
        CfgV { h: self.h@, mult: self.mult@, total_layers: self.total as nat }
    }
}

/// The classifier's state between lines.
#[derive(Clone, Copy)]
struct St {
    layer: u128,
    z: Dec,
    wall: Wall,
    blocks: usize,
    inside: bool,
    shifted: bool,
}

impl St {
    spec fn wf(&self) -> bool {
        self.z.wf() && self.layer <= pow10(24)
    }

    spec fn view(&self) -> StV {
        StV {
            layer: self.layer as nat,
            z: self.z@,
            wall: self.wall,
            blocks: self.blocks as nat,
            inside: self.inside,
            shifted: self.shifted,
        }
    }
}

/// Split the input text into lines as the model's `lines_from` does.
fn split_lines(s: &str) -> (r: Vec<String>)
    ensures
        views_of(r@) == lines_from(s@, 0),
{
    let n = s.unicode_len();
    let mut out: Vec<String> = Vec::new();
    let mut i: usize = 0;
    while i < n
        invariant
            n == s@.len(),
            i <= n,
            views_of(out@) + lines_from(s@, i as int) == lines_from(s@, 0),
        decreases n - i,
    {
        let mut j: usize = i;
        while j < n && s.get_char(j) != '\n'
            invariant
                i <= j <= n,
                n == s@.len(),
                find_nl(s@, i as int) == find_nl(s@, j as int),
            decreases n - j,
        {
            j = j + 1;
        }
        proof {
            assert(find_nl(s@, i as int) == j);
        }
        let ghost pre = out@;
        if j == n {
            let line = String::from_str(s.substring_char(i, n));
            out.push(line);
            proof {
                assert(views_of(out@) =~= views_of(pre) + seq![s@.subrange(i as int, n as int)]);
                assert(views_of(out@) + lines_from(s@, n as int) =~= lines_from(s@, 0));
            }
            i = n;
        } else {
            let line = if j > i && s.get_char(j - 1) == '\r' {
                String::from_str(s.substring_char(i, j - 1))
            } else {
                String::from_str(s.substring_char(i, j))
            };
            out.push(line);
            proof {
                let raw = s@.subrange(i as int, j as int);
                if raw.len() > 0 && raw[raw.len() - 1] == '\r' {
                    assert(raw.drop_last() =~= s@.subrange(i as int, j - 1));
                    assert(views_of(out@) =~= views_of(pre) + seq![raw.drop_last()]);
                } else {
                    assert(views_of(out@) =~= views_of(pre) + seq![raw]);
                }
                assert(views_of(out@) + lines_from(s@, j + 1) =~= lines_from(s@, 0));
            }
            i = j + 1;
        }
    }
    proof {
        assert(views_of(out@) + lines_from(s@, i as int) =~= views_of(out@));
    }
    out
}

/// Find the metadata line and parse the layer height it names.
fn find_layer_height(lines: &Vec<String>) -> (r: Result<Dec, GcodeError>)
    ensures
        ({
            let ls = views_of(lines@);
            match r {
                Ok(h) => h.wf() && find_meta(ls, 0) is Some && meta_value(
                    ls[find_meta(ls, 0)->Some_0],
                ) == Some(h@),
                Err(GcodeError::MissingLayerHeight) => find_meta(ls, 0) is None,
                Err(GcodeError::InvalidLayerHeight) => find_meta(ls, 0) is Some && meta_value(
                    ls[find_meta(ls, 0)->Some_0],
                ) is None,
            }
        }),
{
    let n = lines.len();
    let mut i: usize = 0;
    while i < n
        invariant
            i <= n,
            n == lines@.len(),
            find_meta(views_of(lines@), 0) == find_meta(views_of(lines@), i as int),
        decreases n - i,
    {
        proof {
            assert(views_of(lines@)[i as int] == lines@[i as int]@);
        }
        if starts_with_str(lines[i].as_str(), "; layer_height = ") {
            proof {
                reveal_strlit("; layer_height = ");
                assert(meta_prefix().len() == 17);
            }
            let line = lines[i].as_str();
            let len = line.unicode_len();
            let tail = line.substring_char(16, len);
            let trimmed = trim_str(tail);
            match Dec::parse(trimmed) {
                Some(h) => {
                    return Ok(h);
                },
                None => {
                    return Err(GcodeError::InvalidLayerHeight);
                },
            }
        }
        i = i + 1;
    }
    Err(GcodeError::MissingLayerHeight)
}

/// Count the layer-change lines.
fn count_layer_changes(lines: &Vec<String>) -> (r: usize)
    ensures
        r as nat == count_layer_lines(views_of(lines@), 0),
{
    let n = lines.len();
    let mut i: usize = 0;
    let mut count: usize = 0;
    while i < n
        invariant
            i <= n,
            count <= i,
            n == lines@.len(),
            count as nat + count_layer_lines(views_of(lines@), i as int) == count_layer_lines(
                views_of(lines@),
                0,
            ),
        decreases n - i,
    {
        proof {
            assert(views_of(lines@)[i as int] == lines@[i as int]@);
        }
        if starts_with_str(lines[i].as_str(), "G1 Z") {
            count = count + 1;
        }
        i = i + 1;
    }
    count
}

/// The synthetic instruction ahead of an odd-numbered block.
fn shift_synthetic(cfg: &Cfg, z: &Dec, b: usize) -> (r: String)
    requires
        cfg.wf(),
        z.wf(),
    ensures
        r@ == shift_line(cfg@, z@, b as nat),
{
    let mut syn = String::from_str("G1 Z");
    let (zneg, zmag) = Dec::shifted_z_millis(z, &cfg.h);
    append_fixed(&mut syn, zneg, zmag, 3);
    syn.append(" ; Shifted Z for block #");
    push_digits(b as u128, &mut syn);
    proof {
        assert(syn@ =~= shift_line(cfg@, z@, b as nat));
    }
    syn
}

/// The synthetic instruction ahead of an even-numbered block.
fn reset_synthetic(z: &Dec, b: usize) -> (r: String)
    requires
        z.wf(),
    ensures
        r@ == reset_line(z@, b as nat),
{
    let mut syn = String::from_str("G1 Z");
    let (zneg, zmag) = Dec::z_millis(z);
    append_fixed(&mut syn, zneg, zmag, 3);
    syn.append(" ; Reset Z for block #");
    push_digits(b as u128, &mut syn);
    proof {
        assert(syn@ =~= reset_line(z@, b as nat));
    }
    syn
}

/// A shifted block's line with its extrusion field rescaled, trimmed and
/// annotated; untouched when no extrusion field parses.
fn rescaled(cfg: &Cfg, layer: u128, b: usize, line: &String) -> (r: String)
    requires
        cfg.wf(),
        layer <= pow10(24),
    ensures
        r@ == rescale_line(cfg@, layer as nat, b as nat, line@),
{
    proof {
        lemma_pow10_vals();
    }
    match find_capture(line.as_str(), 'E') {
        Some(me) => {
            let txt = line.as_str().substring_char(me.0 + 1, me.1);
            match Dec::parse(txt) {
                Some(ev) => {
                    let f = if layer == 0 {
                        Dec::three_halves()
                    } else if layer + 1 == cfg.total as u128 {
                        Dec::half()
                    } else {
                        cfg.mult
                    };
                    let (neg, units) = Dec::rescaled_e_units(&ev, &f);
                    let mut repl = String::from_str("E");
                    append_fixed(&mut repl, neg, units, 5);
                    let replaced = replace_all_str(line.as_str(), 'E', repl.as_str());
                    let trimmed = trim_str(replaced.as_str());
                    let mut fin = String::from_str(trimmed);
                    if layer == 0 {
                        fin.append(" ; Adjusted E for first layer, block #");
                    } else if layer + 1 == cfg.total as u128 {
                        fin.append(" ; Adjusted E for last layer, block #");
                    } else {
                        fin.append(" ; Adjusted E for extrusionMultiplier, block #");
                    }
                    push_digits(b as u128, &mut fin);
                    proof {
                        assert(fin@ =~= rescale_line(cfg@, layer as nat, b as nat, line@));
                    }
                    fin
                },
                None => line.clone(),
            }
        },
        None => line.clone(),
    }
}

/// Process one line: push what it emits and return the next state.
fn step_exec(cfg: &Cfg, st: St, line: &String, out: &mut Vec<String>) -> (r: St)
    requires
        cfg.wf(),
        st.wf(),
        st.blocks < usize::MAX,
    ensures
        r@ == step(cfg@, st@, line@).0,
        r.wf(),
        r.blocks <= st.blocks + 1,
        views_of(final(out)@) == views_of(old(out)@) + step(cfg@, st@, line@).1,
{
    if starts_with_str(line.as_str(), "G1 Z") {
        let mut st2 = st;
        match find_capture(line.as_str(), 'Z') {
            Some(me) => {
                let txt = line.as_str().substring_char(me.0 + 1, me.1);
                match Dec::parse(txt) {
                    Some(zv) => {
                        let lay = Dec::layer_index(&zv, &cfg.h);
                        st2 = St { layer: lay, z: zv, blocks: 0, ..st };
                    },
                    None => {},
                }
            },
            None => {},
        }
        out.push(line.clone());
        proof {
            assert(views_of(final(out)@) =~= views_of(old(out)@) + step(cfg@, st@, line@).1);
        }
        st2
    } else if contains_str(line.as_str(), ";TYPE:External perimeter") || contains_str(
        line.as_str(),
        ";TYPE:Outer wall",
    ) {
        out.push(line.clone());
        proof {
            assert(views_of(final(out)@) =~= views_of(old(out)@) + step(cfg@, st@, line@).1);
        }
        St { wall: Wall::External, inside: false, ..st }
    } else if contains_str(line.as_str(), ";TYPE:Perimeter") || contains_str(
        line.as_str(),
        ";TYPE:Inner wall",
    ) {
        out.push(line.clone());
        proof {
            assert(views_of(final(out)@) =~= views_of(old(out)@) + step(cfg@, st@, line@).1);
        }
        St { wall: Wall::Internal, inside: false, ..st }
    } else if contains_str(line.as_str(), ";TYPE:") {
        out.push(line.clone());
        proof {
            assert(views_of(final(out)@) =~= views_of(old(out)@) + step(cfg@, st@, line@).1);
        }
        St { wall: Wall::Other, inside: false, ..st }
    } else if st.wall == Wall::Internal && starts_with_str(line.as_str(), "G1")
        && contains_char_exec(line.as_str(), 'X') && contains_char_exec(line.as_str(), 'Y')
        && contains_char_exec(line.as_str(), 'E') {
        if !st.inside {
            let b = st.blocks + 1;
            if b % 2 == 1 {
                let syn = shift_synthetic(cfg, &st.z, b);
                out.push(syn);
                let fin = rescaled(cfg, st.layer, b, line);
                out.push(fin);
                proof {
                    assert(views_of(final(out)@) =~= views_of(old(out)@) + step(
                        cfg@,
                        st@,
                        line@,
                    ).1);
                }
                St { blocks: b, inside: true, shifted: true, ..st }
            } else {
                let syn = reset_synthetic(&st.z, b);
                out.push(syn);
                out.push(line.clone());
                proof {
                    assert(views_of(final(out)@) =~= views_of(old(out)@) + step(
                        cfg@,
                        st@,
                        line@,
                    ).1);
                }
                St { blocks: b, inside: true, shifted: false, ..st }
            }
        } else {
            if st.shifted {
                let fin = rescaled(cfg, st.layer, st.blocks, line);
                out.push(fin);
                proof {
                    assert(views_of(final(out)@) =~= views_of(old(out)@) + step(
                        cfg@,
                        st@,
                        line@,
                    ).1);
                }
                st
            } else {
                out.push(line.clone());
                proof {
                    assert(views_of(final(out)@) =~= views_of(old(out)@) + step(
                        cfg@,
                        st@,
                        line@,
                    ).1);
                }
                st
            }
        }
    } else if st.wall == Wall::Internal && starts_with_str(line.as_str(), "G1")
        && contains_char_exec(line.as_str(), 'X') && contains_char_exec(line.as_str(), 'Y')
        && contains_char_exec(line.as_str(), 'F') {
        out.push(line.clone());
        proof {
            assert(views_of(final(out)@) =~= views_of(old(out)@) + step(cfg@, st@, line@).1);
        }
        St { inside: false, ..st }
    } else {
        out.push(line.clone());
        proof {
            assert(views_of(final(out)@) =~= views_of(old(out)@) + step(cfg@, st@, line@).1);
        }
        st
    }
}

/// Join the emitted lines with single newlines.
fn join_lines(lines: &Vec<String>) -> (r: String)
    ensures
        r@ == join_from(views_of(lines@), 0),
{
    let mut out = String::new();
    let n = lines.len();
    let mut i: usize = 0;
    while i < n
        invariant
            i <= n,
            n == lines@.len(),
            out@ + join_from(views_of(lines@), i as int) == join_from(views_of(lines@), 0),
        decreases n - i,
    {
        proof {
            assert(views_of(lines@)[i as int] == lines@[i as int]@);
        }
        out.append(lines[i].as_str());
        if i + 1 < n {
            out.append("\n");
            proof {
                reveal_strlit("\n");
                assert("\n"@ =~= seq!['\n']);
            }
        }
        proof {
            assert(out@ + join_from(views_of(lines@), i + 1) =~= join_from(views_of(lines@), 0));
        }
        i = i + 1;
    }
    proof {
        assert(out@ + join_from(views_of(lines@), n as int) =~= out@);
    }
    out
}

/// Transform a whole toolpath program: find the layer height, count the
/// layer changes, and run the classifying pass over every line. Fails
/// exactly when the metadata line is missing or its value cannot be
/// parsed; every other line, malformed numbers included, passes through
/// or is rewritten as the model `step` says.
pub fn process(gcode: &str, extrusion_multiplier: &Dec) -> (r: Result<String, GcodeError>)
    requires
        extrusion_multiplier.wf(),
    ensures
        ({
            let ls = lines_from(gcode@, 0);
            let mi = find_meta(ls, 0);
            match r {
                Ok(out) => mi is Some && meta_value(ls[mi->Some_0]) is Some && out@
                    == transformed(gcode@, extrusion_multiplier@),
                Err(GcodeError::MissingLayerHeight) => mi is None,
                Err(GcodeError::InvalidLayerHeight) => mi is Some && meta_value(ls[mi->Some_0])
                    is None,
            }
        }),
{
    let lines = split_lines(gcode);
    let h = match find_layer_height(&lines) {
        Ok(h) => h,
        Err(e) => {
            return Err(e);
        },
    };
    let total = count_layer_changes(&lines);
    let cfg = Cfg { h, mult: *extrusion_multiplier, total };
    proof {
        assert(cfg@ == cfg_of(gcode@, extrusion_multiplier@));
    }
    let mut st = St {
        layer: 0,
        z: Dec::zero(),
        wall: Wall::Other,
        blocks: 0,
        inside: false,
        shifted: false,
    };
    proof {
        assert(st@ == init_state());
    }
    let mut out: Vec<String> = Vec::new();
    let n = lines.len();
    let mut i: usize = 0;
    while i < n
        invariant
            cfg.wf(),
            st.wf(),
            st.blocks <= i,
            i <= n,
            n == lines@.len(),
            run_from(cfg@, init_state(), views_of(lines@), 0).1 == views_of(out@) + run_from(
                cfg@,
                st@,
                views_of(lines@),
                i as int,
            ).1,
        decreases n - i,
    {
        proof {
            assert(views_of(lines@)[i as int] == lines@[i as int]@);
        }
        let ghost pre_out = out@;
        let st2 = step_exec(&cfg, st, &lines[i], &mut out);
        proof {
            let ls = views_of(lines@);
            let stepped = step(cfg@, st@, ls[i as int]);
            assert(run_from(cfg@, st@, ls, i as int).1 == stepped.1 + run_from(
                cfg@,
                stepped.0,
                ls,
                i + 1,
            ).1);
            assert(views_of(out@) + run_from(cfg@, st2@, ls, i + 1).1 =~= run_from(
                cfg@,
                init_state(),
                ls,
                0,
            ).1);
        }
        st = st2;
        i = i + 1;
    }
    proof {
        assert(views_of(out@) =~= run_from(cfg@, init_state(), views_of(lines@), 0).1);
    }
    let result = join_lines(&out);
    Ok(result)
}

} // verus!
