//! Properties that hold across the library's functions: accepted relative
//! paths keep every file below its root, read with `/` alone or with
//! backslashes too as on Windows, and mirror names and extensions between
//! the source and output folders; no accepted output lies inside the source
//! folder; a worker's entry is valid exactly when its checks pass, and a
//! byte-identical copy always is; installing resources writes only below
//! the install root, and replacing the runtime always leaves one in place.
use vstd::prelude::*;
use crate::paths::{
    all_normal, body_comps, comp_of, components, extension, file_name, has_cur, has_root, join,
    lead_len, nth_kept, pieces, skip_back, skip_front, skipped, starts_with, strip_prefix, Comp,
};
use crate::text::join_with;
use crate::imaging::{AssetView, alpha_kept, forward_slashes, inspection, png_decoding, read_bytes, FileRead};
use crate::validation::{
    alpha_rule, copy_verdict, inside_source, roots_separate, worker_verdict, CopyRecord,
};
use crate::resources::{
    all_component_steps, component_steps, download_step, entry_error, file_step, find_resource,
    install_plan, listing_error, matching_steps, own_steps, runtime_destination, strip_dot_slash,
    until_fail, ManifestFile, ManifestResource, StepView, SwapAction, SwapNextView, swap_next_spec,
};
use crate::safety::safe_resource_relative_spec;
use crate::text::{strip_end, trim};
use crate::safety::{no_drive_prefix, safe_relative_spec, stays_inside};
use crate::text::{lemma_split_nonempty, split_on};
use crate::paths::lower_extension;
use crate::safety::{has_image_extension, has_supported_extension};
use crate::probe::{flux_ready, status_table, ProbePaths, ProbePresence};
use crate::system::{cautions, max_memory, GpuView};
use crate::format::{hex_bytes, hex_char};
use crate::integrity::digest_matches;
use crate::worker::{resolution_allowed, steps_allowed};
use crate::resources::{resume_start_spec, retry_delay_spec, ResumeStart};
use crate::text::{lower, lower_char};

verus! {

proof fn lemma_split_concat(a: Seq<char>, b: Seq<char>, sep: char)
    ensures
        split_on(a + seq![sep] + b, sep) == split_on(a, sep) + split_on(b, sep),
    decreases b.len(),
{
    if b.len() == 0 {
        assert(a + seq![sep] + b =~= a.push(sep));
        assert((a.push(sep)).drop_last() =~= a);
        assert(split_on(b, sep) =~= seq![Seq::<char>::empty()]);
        assert(split_on(a, sep).push(Seq::empty()) =~= split_on(a, sep) + split_on(b, sep));
    } else {
        let b0 = b.drop_last();
        lemma_split_concat(a, b0, sep);
        lemma_split_nonempty(b0, sep);
        lemma_split_nonempty(a, sep);
        let whole = a + seq![sep] + b;
        assert(whole.drop_last() =~= a + seq![sep] + b0);
        assert(whole.last() == b.last());
        let sa = split_on(a, sep);
        let sb0 = split_on(b0, sep);
        if b.last() == sep {
            assert((sa + sb0).push(Seq::empty()) =~= sa + sb0.push(Seq::empty()));
        } else {
            let u = (sa + sb0);
            assert(u.last() == sb0.last());
            assert(u.update(u.len() - 1, u.last().push(b.last())) =~= sa + sb0.update(
                sb0.len() - 1,
                sb0.last().push(b.last()),
            ));
        }
    }
}

proof fn lemma_body_concat(x: Seq<Seq<char>>, y: Seq<Seq<char>>)
    ensures
        body_comps(x + y) == body_comps(x) + body_comps(y),
    decreases y.len(),
{
    if y.len() == 0 {
        assert(x + y =~= x);
        assert(body_comps(x) + body_comps(y) =~= body_comps(x));
    } else {
        let y0 = y.drop_last();
        lemma_body_concat(x, y0);
        assert((x + y).drop_last() =~= x + y0);
        assert((x + y).last() == y.last());
        if !skipped(y.last()) {
            assert((body_comps(x) + body_comps(y0)).push(crate::paths::comp_of(y.last()))
                =~= body_comps(x) + body_comps(y0).push(crate::paths::comp_of(y.last())));
        }
    }
}

proof fn lemma_rel_components(rel: Seq<char>)
    requires
        stays_inside(rel),
    ensures
        !has_cur(rel),
        components(rel) == body_comps(pieces(rel)),
{
    if has_cur(rel) {
        assert(components(rel)[0] == Comp::Cur);
    }
    assert(pieces(rel).skip(0) =~= pieces(rel));
    assert(Seq::<Comp>::empty() + body_comps(pieces(rel)) =~= body_comps(pieces(rel)));
}

/// An accepted relative path joined to any root names exactly the root's
/// components followed by its own, all of them plain names: the joined path
/// lies below the root and cannot climb out of it.
pub proof fn lemma_join_stays_below_root(root: Seq<char>, rel: Seq<char>)
    requires
        stays_inside(rel),
    ensures
        components(join(root, rel)) == components(root) + components(rel),
        all_normal(components(rel)),
        starts_with(join(root, rel), root),
{
    lemma_rel_components(rel);
    let j = join(root, rel);
    let cr = components(root);
    if root.len() == 0 {
        assert(j == rel);
        assert(pieces(root) =~= seq![Seq::<char>::empty()]);
        assert(pieces(root)[0].len() == 0);
        assert(seq!['.'].len() == 1);
        assert(!has_cur(root));
        assert(pieces(root).skip(0) =~= seq![Seq::<char>::empty()]);
        assert(body_comps(seq![Seq::<char>::empty()]) =~= body_comps(
            seq![Seq::<char>::empty()].drop_last(),
        ));
        assert(cr =~= Seq::<Comp>::empty());
        assert(components(j) =~= cr + components(rel));
    } else {
        let lead = lead_len(root);
        let base = if root.last() != '/' {
            root
        } else {
            root.drop_last()
        };
        assert(j =~= base + seq!['/'] + rel);
        lemma_split_concat(base, rel, '/');
        lemma_split_nonempty(base, '/');
        let sb = split_on(base, '/');
        assert(pieces(j) == sb + pieces(rel));
        assert(j[0] == root[0]);
        if root.last() == '/' {
            assert(root =~= base.push('/'));
            assert(root.drop_last() =~= base);
            assert(pieces(root) == sb.push(Seq::empty()));
        } else {
            assert(pieces(root) == sb);
        }
        assert(pieces(j)[0] == pieces(root)[0]);
        assert(has_root(j) == has_root(root));
        assert(has_cur(j) == has_cur(root));
        assert(lead_len(j) == lead);
        assert(pieces(j).skip(lead) =~= sb.skip(lead) + pieces(rel));
        lemma_body_concat(sb.skip(lead), pieces(rel));
        if root.last() == '/' {
            assert(pieces(root).skip(lead) =~= sb.skip(lead).push(Seq::empty()));
            assert(pieces(root).skip(lead).drop_last() =~= sb.skip(lead));
        } else {
            assert(pieces(root).skip(lead) =~= sb.skip(lead));
        }
        assert(body_comps(pieces(root).skip(lead)) == body_comps(sb.skip(lead)));
        assert(components(j) =~= cr + components(rel));
    }
    assert(components(j).take(cr.len() as int) =~= cr);
}

/// An accepted relative path keeps every file below the root it is joined
/// to, whatever the root; read with backslashes as separators too, as
/// Windows reads it, it is still made of plain names and has no drive
/// prefix.
pub proof fn lemma_accepted_path_stays_below_root(root: Seq<char>, value: Seq<char>)
    requires
        safe_relative_spec(value) is Ok,
    ensures
        stays_inside(value),
        !has_root(forward_slashes(value)),
        all_normal(components(forward_slashes(value))),
        no_drive_prefix(value),
        starts_with(join(root, value), root),
        components(join(root, value)) == components(root) + components(value),
        all_normal(components(value)),
{
    lemma_join_stays_below_root(root, value);
}

/// The source and output paths of an accepted relative path have the same
/// file name and extension, those of the relative path itself.
pub proof fn lemma_output_mirrors_source(source_root: Seq<char>, output_root: Seq<char>, value: Seq<char>)
    requires
        safe_relative_spec(value) is Ok,
    ensures
        file_name(join(source_root, value)) == file_name(value),
        file_name(join(output_root, value)) == file_name(value),
        extension(join(source_root, value)) == extension(value),
        extension(join(output_root, value)) == extension(value),
{
    lemma_join_stays_below_root(source_root, value);
    lemma_join_stays_below_root(output_root, value);
    let c = components(value);
    if c.len() > 0 {
        assert((components(source_root) + c).last() == c.last());
        assert((components(output_root) + c).last() == c.last());
    } else {
        assert(file_name(value) is None);
    }
}

/// For an output folder that is neither inside the source folder (which
/// `check_separate_roots` refuses) nor holds it, no accepted relative path
/// puts an output inside the source folder, so `item_target` refuses none of
/// them for that reason. (For any folders, `item_target` accepts only
/// outputs outside the source folder.)
pub proof fn lemma_output_outside_source(source_root: Seq<char>, output_root: Seq<char>, value: Seq<char>)
    requires
        safe_relative_spec(value) is Ok,
        roots_separate(source_root, output_root),
        !inside_source(source_root, output_root),
    ensures
        !starts_with(join(output_root, value), source_root),
        !starts_with(forward_slashes(join(output_root, value)), forward_slashes(source_root)),
{
    lemma_join_stays_below_root(output_root, value);
    lemma_outside_after_join(
        components(output_root),
        components(source_root),
        components(value),
    );
    lemma_windows_join_stays_below_root(output_root, value);
    lemma_outside_after_join(
        components(forward_slashes(output_root)),
        components(forward_slashes(source_root)),
        components(forward_slashes(value)),
    );
}

/// Components that extend an output folder that is neither inside the
/// source folder nor holds it never reach inside the source folder.
proof fn lemma_outside_after_join(co: Seq<Comp>, cs: Seq<Comp>, cr: Seq<Comp>)
    requires
        !(cs.len() <= co.len() && co.take(cs.len() as int) == cs),
        !(co.len() <= cs.len() && cs.take(co.len() as int) == co),
    ensures
        !(cs.len() <= (co + cr).len() && (co + cr).take(cs.len() as int) == cs),
{
    let cj = co + cr;
    if cs.len() <= cj.len() && cj.take(cs.len() as int) == cs {
        if cs.len() <= co.len() {
            assert(co.take(cs.len() as int) =~= cj.take(cs.len() as int));
        } else {
            assert(cs.take(co.len() as int) =~= co);
        }
    }
}

/// Number of pieces from index `i` on that name a component.
pub open spec fn kept_from(ps: Seq<Seq<char>>, i: int) -> nat
    decreases ps.len() - i,
{
    if i < 0 || i >= ps.len() {
        0
    } else {
        (if skipped(ps[i]) {
            0nat
        } else {
            1nat
        }) + kept_from(ps, i + 1)
    }
}

proof fn lemma_kept_counts_components(ps: Seq<Seq<char>>, i: int)
    requires
        0 <= i <= ps.len(),
    ensures
        body_comps(ps.skip(i)).len() == kept_from(ps, i),
    decreases ps.len() - i,
{
    if i == ps.len() {
        assert(ps.skip(i) =~= Seq::<Seq<char>>::empty());
    } else {
        lemma_kept_counts_components(ps, i + 1);
        assert(ps.skip(i) =~= seq![ps[i]] + ps.skip(i + 1));
        lemma_body_concat(seq![ps[i]], ps.skip(i + 1));
        assert(seq![ps[i]].drop_last() =~= Seq::<Seq<char>>::empty());
        assert(seq![ps[i]].last() == ps[i]);
        assert(body_comps(Seq::<Seq<char>>::empty()).len() == 0);
        assert(body_comps(seq![ps[i]]).len() == if skipped(ps[i]) {
            0nat
        } else {
            1nat
        });
    }
}

proof fn lemma_kept_concat(x: Seq<Seq<char>>, y: Seq<Seq<char>>, i: int)
    requires
        0 <= i <= x.len(),
    ensures
        kept_from(x + y, i) == kept_from(x, i) + kept_from(y, 0),
    decreases x.len() - i,
{
    if i == x.len() {
        lemma_kept_shift(x, y, 0);
    } else {
        lemma_kept_concat(x, y, i + 1);
        assert((x + y)[i] == x[i]);
    }
}

proof fn lemma_kept_shift(x: Seq<Seq<char>>, y: Seq<Seq<char>>, i: int)
    requires
        0 <= i <= y.len(),
    ensures
        kept_from(x + y, x.len() + i) == kept_from(y, i),
    decreases y.len() - i,
{
    if i < y.len() {
        lemma_kept_shift(x, y, i + 1);
        assert((x + y)[x.len() + i] == y[i]);
    }
}

proof fn lemma_nth_kept_in_prefix(x: Seq<Seq<char>>, y: Seq<Seq<char>>, from: int, m: int)
    requires
        0 <= from <= x.len(),
        m >= 1,
        m == kept_from(x, from),
    ensures
        from <= nth_kept(x + y, from, m) < x.len(),
        kept_from(x, nth_kept(x + y, from, m) + 1) == 0,
    decreases x.len() - from,
{
    let ps = x + y;
    assert(from < x.len());
    assert(ps[from] == x[from]);
    if skipped(x[from]) {
        lemma_nth_kept_in_prefix(x, y, from + 1, m);
    } else if m > 1 {
        lemma_nth_kept_in_prefix(x, y, from + 1, m - 1);
    }
}

proof fn lemma_skip_front_to_tail(x: Seq<Seq<char>>, y: Seq<Seq<char>>, i: int)
    requires
        0 <= i <= x.len(),
        kept_from(x, i) == 0,
        y.len() > 0,
        !skipped(y[0]),
    ensures
        skip_front(x + y, i) == x.len(),
    decreases x.len() - i,
{
    let ps = x + y;
    if i < x.len() {
        assert(ps[i] == x[i]);
        lemma_skip_front_to_tail(x, y, i + 1);
    } else {
        assert(ps[i] == y[0]);
    }
}

proof fn lemma_skip_back_shift(x: Seq<Seq<char>>, y: Seq<Seq<char>>, hi: int)
    requires
        0 <= hi <= y.len(),
    ensures
        skip_back(x + y, x.len() as int, x.len() + hi) == x.len() + skip_back(y, 0, hi),
    decreases hi,
{
    if hi > 0 {
        assert((x + y)[x.len() + hi - 1] == y[hi - 1]);
        lemma_skip_back_shift(x, y, hi - 1);
    }
}

proof fn lemma_skip_back_bounds(ps: Seq<Seq<char>>, lo: int, hi: int)
    requires
        lo <= hi,
    ensures
        lo <= skip_back(ps, lo, hi) <= hi,
    decreases hi - lo,
{
    if hi > lo && skipped(ps[hi - 1]) {
        lemma_skip_back_bounds(ps, lo, hi - 1);
    }
}

proof fn lemma_first_piece(s: Seq<char>, sep: char)
    requires
        split_on(s, sep)[0].len() == 0,
    ensures
        s.len() == 0 || s[0] == sep,
    decreases s.len(),
{
    if s.len() > 0 {
        let init = s.drop_last();
        lemma_split_nonempty(init, sep);
        if s.last() == sep {
            if init.len() > 0 {
                lemma_first_piece(init, sep);
            }
        } else {
            if split_on(init, sep).len() > 1 {
                lemma_first_piece(init, sep);
                if init.len() == 0 {
                    assert(split_on(init, sep) =~= seq![Seq::<char>::empty()]);
                }
            }
        }
    }
}

/// The pieces of a joined path: those of the root (without a trailing
/// empty piece) followed by those of the relative path.
proof fn lemma_join_shape(root: Seq<char>, rel: Seq<char>) -> (sb: Seq<Seq<char>>)
    requires
        root.len() > 0,
        !has_root(rel),
    ensures
        sb.len() >= 1,
        pieces(join(root, rel)) == sb + pieces(rel),
        pieces(root) == sb || pieces(root) == sb.push(Seq::empty()),
        has_root(join(root, rel)) == has_root(root),
        has_cur(join(root, rel)) == has_cur(root),
        lead_len(join(root, rel)) == lead_len(root),
        body_comps(pieces(root).skip(lead_len(root))) == body_comps(sb.skip(lead_len(root))),
{
    let j = join(root, rel);
    let lead = lead_len(root);
    let base = if root.last() != '/' {
        root
    } else {
        root.drop_last()
    };
    assert(j =~= base + seq!['/'] + rel);
    lemma_split_concat(base, rel, '/');
    lemma_split_nonempty(base, '/');
    let sb = split_on(base, '/');
    assert(j[0] == root[0]);
    if root.last() == '/' {
        assert(root =~= base.push('/'));
        assert(root.drop_last() =~= base);
        assert(pieces(root) == sb.push(Seq::empty()));
        assert(pieces(root).skip(lead) =~= sb.skip(lead).push(Seq::empty()));
        assert(pieces(root).skip(lead).drop_last() =~= sb.skip(lead));
    } else {
        assert(pieces(root) == sb);
    }
    assert(pieces(j)[0] == pieces(root)[0]);
    sb
}

/// The part of a relative path that `strip_prefix` gives back: its pieces
/// without trailing separators or `.` pieces.
pub open spec fn trailing_trimmed(rel: Seq<char>) -> Seq<char> {
    let pr = pieces(rel);
    join_with(pr.take(skip_back(pr, 0, pr.len() as int)), '/')
}

/// Stripping the root from an accepted relative path joined to it gives the
/// relative path back, whatever the (non-empty) root: the relative part of
/// a source and of its output are the same text.
pub proof fn lemma_strip_joined_root(root: Seq<char>, rel: Seq<char>)
    requires
        root.len() > 0,
        safe_relative_spec(rel) is Ok,
    ensures
        strip_prefix(join(root, rel), root) == Some(trailing_trimmed(rel)),
{
    lemma_join_stays_below_root(root, rel);
    lemma_rel_components(rel);
    let j = join(root, rel);
    let sb = lemma_join_shape(root, rel);
    let pr = pieces(rel);
    let pj = pieces(j);
    let lead = lead_len(root);
    lemma_split_nonempty(rel, '/');
    // The relative path has a component, so its first piece names one.
    if rel.len() == 0 {
        assert(pr =~= seq![Seq::<char>::empty()]);
        assert(body_comps(pr) =~= body_comps(pr.drop_last()));
        assert(components(rel).len() == 0);
        assert(file_name(rel) is None);
    }
    if pr[0].len() == 0 {
        lemma_first_piece(rel, '/');
    }
    assert(!skipped(pr[0])) by {
        if pr[0] == seq!['.'] {
            assert(has_cur(rel));
        }
    }
    // The components of the root: its lead and the named pieces of `sb`.
    let m = body_comps(sb.skip(lead)).len();
    lemma_kept_counts_components(sb, lead);
    assert(pieces(root).skip(lead_len(root)) == pieces(root).skip(lead));
    let k = components(root).len();
    assert(k == lead + m);
    assert(k > 0) by {
        if root[0] == '/' {
            assert(has_root(root));
        } else {
            lemma_first_piece_named(root);
        }
    }
    let idx = if k <= lead {
        0
    } else {
        nth_kept(pj, lead, k - lead)
    };
    if k > lead {
        lemma_nth_kept_in_prefix(sb, pr, lead, m as int);
    } else {
        assert(lead == 1);
    }
    assert(idx < pj.len());
    assert(kept_from(sb, idx + 1) == 0);
    lemma_skip_front_to_tail(sb, pr, idx + 1);
    let lo = skip_front(pj, idx + 1);
    assert(lo == sb.len());
    lemma_skip_back_shift(sb, pr, pr.len() as int);
    let hi = skip_back(pj, lo, pj.len() as int);
    let t = skip_back(pr, 0, pr.len() as int);
    lemma_skip_back_bounds(pr, 0, pr.len() as int);
    assert(pj == sb + pr);
    assert(hi == sb.len() + t);
    assert forall|i: int| 0 <= i < t implies pj.subrange(lo, hi)[i] == pr.take(t)[i] by {
        assert(pj[sb.len() + i] == pr[i]);
    }
    assert(pj.subrange(lo, hi) =~= pr.take(t));
}

/// A root that does not start with `/` has a first piece that names a
/// component.
proof fn lemma_first_piece_named(root: Seq<char>)
    requires
        root.len() > 0,
        root[0] != '/',
    ensures
        components(root).len() > 0,
{
    let ps = pieces(root);
    lemma_split_nonempty(root, '/');
    if ps[0].len() == 0 {
        lemma_first_piece(root, '/');
    }
    if ps[0] == seq!['.'] {
        assert(has_cur(root));
    } else {
        assert(!has_cur(root));
        assert(ps.skip(0) =~= ps);
        lemma_kept_counts_components(ps, 0);
        assert(!skipped(ps[0]));
    }
}

/// The records of a source and of its output, for an accepted relative
/// path below non-empty roots, agree on relative path, folder, file name and
/// extension: the output mirrors the source's place and name exactly.
pub proof fn lemma_records_mirror(
    source_root: Seq<char>,
    output_root: Seq<char>,
    value: Seq<char>,
    source: FileRead,
    output: FileRead,
)
    requires
        source_root.len() > 0,
        output_root.len() > 0,
        safe_relative_spec(value) is Ok,
        inspection(join(source_root, value), source_root, source) is Ok,
        inspection(join(output_root, value), output_root, output) is Ok,
    ensures
        ({
            let a = inspection(join(source_root, value), source_root, source)->Ok_0;
            let b = inspection(join(output_root, value), output_root, output)->Ok_0;
            &&& a.relative_path == b.relative_path
            &&& a.directory == b.directory
            &&& a.filename == b.filename
            &&& a.extension == b.extension
        }),
{
    lemma_strip_joined_root(source_root, value);
    lemma_strip_joined_root(output_root, value);
    lemma_output_mirrors_source(source_root, output_root, value);
}

/// A worker's entry is reported valid exactly when its path is accepted, the
/// worker completed it, both the source and the output decode, their
/// canvases agree and a PNG source's transparency is kept: the relative
/// path, name and extension of an accepted entry always agree.
pub proof fn lemma_worker_valid_exactly_when_checked(
    source_root: Seq<char>,
    output_root: Seq<char>,
    item_rel: Seq<char>,
    item_status: Seq<char>,
    item_message: Seq<char>,
    source: FileRead,
    output: FileRead,
)
    requires
        source_root.len() > 0,
        output_root.len() > 0,
    ensures
        worker_verdict(
            source_root,
            output_root,
            item_rel,
            item_status,
            item_message,
            source,
            output,
        ).valid <==> {
            &&& safe_relative_spec(item_rel) is Ok
            &&& item_status == "complete"@
            &&& inspection(join(source_root, item_rel), source_root, source) is Ok
            &&& inspection(join(output_root, item_rel), output_root, output) is Ok
            &&& {
                let s = inspection(join(source_root, item_rel), source_root, source)->Ok_0;
                let o = inspection(join(output_root, item_rel), output_root, output)->Ok_0;
                &&& s.width == o.width
                &&& s.height == o.height
                &&& alpha_rule(s, o, source, output)
            }
        },
{
    if safe_relative_spec(item_rel) is Ok && inspection(
        join(source_root, item_rel),
        source_root,
        source,
    ) is Ok && inspection(join(output_root, item_rel), output_root, output) is Ok {
        assert(safe_relative_spec(item_rel)->Ok_0 == item_rel);
        lemma_records_mirror(source_root, output_root, item_rel, source, output);
    }
}

proof fn lemma_forward_slashes_idempotent(s: Seq<char>)
    ensures
        forward_slashes(forward_slashes(s)) == forward_slashes(s),
{
    assert(forward_slashes(forward_slashes(s)) =~= forward_slashes(s));
}

/// A second trailing separator names no further component.
proof fn lemma_extra_separator(x: Seq<char>)
    requires
        x.len() > 0,
        x.last() == '/',
    ensures
        components(x.push('/')) == components(x),
{
    let y = x.push('/');
    assert(y.drop_last() =~= x);
    lemma_split_nonempty(x, '/');
    let px = pieces(x);
    assert(pieces(y) == px.push(Seq::<char>::empty()));
    assert(pieces(y)[0] == px[0]);
    assert(y[0] == x[0]);
    let lead = lead_len(x);
    assert(lead_len(y) == lead);
    assert(pieces(y).skip(lead) =~= px.skip(lead).push(Seq::<char>::empty()));
    assert(px.skip(lead).push(Seq::<char>::empty()).drop_last() =~= px.skip(lead));
    assert(body_comps(pieces(y).skip(lead)) == body_comps(px.skip(lead)));
}

/// An accepted relative path read the Windows way, with backslashes as
/// separators, also stays below the root it is joined to, the root read
/// the same way: its components follow the root's and are plain names.
pub proof fn lemma_windows_join_stays_below_root(root: Seq<char>, rel: Seq<char>)
    requires
        stays_inside(rel),
    ensures
        components(forward_slashes(join(root, rel))) == components(forward_slashes(root))
            + components(forward_slashes(rel)),
        all_normal(components(forward_slashes(rel))),
        starts_with(forward_slashes(join(root, rel)), forward_slashes(root)),
{
    let fr = forward_slashes(rel);
    let fb = forward_slashes(root);
    lemma_forward_slashes_idempotent(rel);
    assert(stays_inside(fr));
    if root.len() > 0 && root.last() != '/' && root.last() == '\\' {
        let b2 = fb.push('/');
        assert(forward_slashes(join(root, rel)) =~= b2 + fr);
        assert(join(b2, fr) == b2 + fr);
        lemma_join_stays_below_root(b2, fr);
        lemma_extra_separator(fb);
    } else {
        if root.len() > 0 && root.last() != '/' {
            assert(forward_slashes(join(root, rel)) =~= fb + seq!['/'] + fr);
        } else {
            assert(forward_slashes(join(root, rel)) =~= fb + fr);
        }
        assert(forward_slashes(join(root, rel)) == join(fb, fr));
        lemma_join_stays_below_root(fb, fr);
    }
}

/// A completed entry whose output holds exactly the bytes of its source is
/// accepted: a byte-identical copy at the mirrored path always validates,
/// provided the source inspects and, when it is a PNG with transparency,
/// decodes as PNG.
pub proof fn lemma_identical_copy_validates(
    source_root: Seq<char>,
    output_root: Seq<char>,
    item_rel: Seq<char>,
    item_message: Seq<char>,
    source: FileRead,
    output: FileRead,
)
    requires
        source_root.len() > 0,
        output_root.len() > 0,
        safe_relative_spec(item_rel) is Ok,
        inspection(join(source_root, item_rel), source_root, source) is Ok,
        read_bytes(source) is Some,
        read_bytes(output) == read_bytes(source),
        ({
            let s = inspection(join(source_root, item_rel), source_root, source)->Ok_0;
            s.extension == "png"@ && s.has_alpha ==> png_decoding(read_bytes(source)->0) is Some
        }),
    ensures
        worker_verdict(
            source_root,
            output_root,
            item_rel,
            "complete"@,
            item_message,
            source,
            output,
        ).valid,
        worker_verdict(
            source_root,
            output_root,
            item_rel,
            "complete"@,
            item_message,
            source,
            output,
        ).status == "complete"@,
        worker_verdict(
            source_root,
            output_root,
            item_rel,
            "complete"@,
            item_message,
            source,
            output,
        ).message == item_message
            + "; exact size, path, name, extension, and pixel alpha validated"@,
{
    assert(safe_relative_spec(item_rel)->Ok_0 == item_rel);
    let sp = join(source_root, item_rel);
    let op = join(output_root, item_rel);
    lemma_output_mirrors_source(source_root, output_root, item_rel);
    lemma_strip_joined_root(source_root, item_rel);
    lemma_strip_joined_root(output_root, item_rel);
    assert(inspection(op, output_root, output) is Ok);
    lemma_worker_valid_exactly_when_checked(
        source_root,
        output_root,
        item_rel,
        "complete"@,
        item_message,
        source,
        output,
    );
}

/// An accepted archive listing names only safe relative paths inside the
/// runtime folder.
pub proof fn lemma_accepted_listing_stays_in_runtime(ls: Seq<Seq<char>>, i: int)
    requires
        listing_error(ls) is None,
        0 <= i < ls.len(),
        strip_dot_slash(trim(ls[i])).len() > 0,
    ensures
        ({
            let p = strip_end(strip_dot_slash(trim(ls[i])), '/');
            &&& safe_resource_relative_spec(p) is Ok
            &&& stays_inside(p)
            &&& starts_with(p, runtime_destination())
        }),
    decreases i,
{
    if i > 0 {
        assert(ls.drop_first()[i - 1] == ls[i]);
        lemma_accepted_listing_stays_in_runtime(ls.drop_first(), i - 1);
    } else {
        assert(entry_error(ls[0]) is None);
    }
}

/// A step that can be taken within the manifest `rs`: a download to a safe
/// relative destination, or the archive of a resource that has one.
pub open spec fn step_in_bounds(rs: Seq<ManifestResource>, s: StepView) -> bool {
    match s {
        StepView::Download { destination, .. } => safe_resource_relative_spec(destination) is Ok,
        StepView::InstallArchive { resource } => 0 <= resource < rs.len()
            && rs[resource].archive is Some,
        StepView::Fail { .. } => true,
    }
}

proof fn lemma_find_resource_bounds(rs: Seq<ManifestResource>, id: Seq<char>, from: int)
    requires
        find_resource(rs, id, from) is Some,
    ensures
        0 <= find_resource(rs, id, from)->0 < rs.len(),
    decreases rs.len() - from,
{
    if !(from < 0 || from >= rs.len()) && rs[from].id@ != id {
        lemma_find_resource_bounds(rs, id, from + 1);
    }
}

proof fn lemma_matching_steps_in_bounds(
    rs: Seq<ManifestResource>,
    fs: Seq<ManifestFile>,
    id: Seq<char>,
    u: Seq<char>,
    d: Seq<char>,
)
    ensures
        forall|j: int|
            0 <= j < matching_steps(fs, id, u, d).len() ==> step_in_bounds(
                rs,
                #[trigger] matching_steps(fs, id, u, d)[j],
            ),
    decreases fs.len(),
{
    if fs.len() > 0 {
        lemma_matching_steps_in_bounds(rs, fs.drop_last(), id, u, d);
        let f = fs.last();
        let init = matching_steps(fs.drop_last(), id, u, d);
        let step = file_step(u, d, f);
        match step {
            StepView::Download { destination, .. } => {
                assert(safe_resource_relative_spec(destination) is Ok);
            },
            _ => {},
        }
        assert(step_in_bounds(rs, step));
        if f.component@ == id {
            let m = init.push(step);
            assert forall|j: int| 0 <= j < m.len() implies step_in_bounds(rs, #[trigger] m[j]) by {
                if j < init.len() {
                    assert(m[j] == init[j]);
                }
            }
        }
    }
}

proof fn lemma_component_steps_in_bounds(rs: Seq<ManifestResource>, all: Seq<ManifestResource>, id: Seq<char>)
    ensures
        forall|j: int|
            0 <= j < all_component_steps(rs, id).len() ==> step_in_bounds(
                all,
                #[trigger] all_component_steps(rs, id)[j],
            ),
    decreases rs.len(),
{
    if rs.len() > 0 {
        lemma_component_steps_in_bounds(rs.drop_last(), all, id);
        let r = rs.last();
        match (r.base_url, r.destination) {
            (Some(u), Some(d)) => lemma_matching_steps_in_bounds(all, r.files@, id, u@, d@),
            _ => {},
        }
        let a = all_component_steps(rs.drop_last(), id);
        let c = component_steps(r, id);
        assert forall|j: int| 0 <= j < (a + c).len() implies step_in_bounds(
            all,
            #[trigger] (a + c)[j],
        ) by {
            if j >= a.len() {
                assert((a + c)[j] == c[j - a.len()]);
            }
        }
    }
}

proof fn lemma_until_fail_prefix(rs: Seq<ManifestResource>, s: Seq<StepView>)
    requires
        forall|j: int| 0 <= j < s.len() ==> step_in_bounds(rs, #[trigger] s[j]),
    ensures
        until_fail(s).len() <= s.len(),
        forall|j: int|
            0 <= j < until_fail(s).len() ==> #[trigger] until_fail(s)[j] == s[j] && (s[j] is Fail
                ==> j == until_fail(s).len() - 1),
    decreases s.len(),
{
    if s.len() > 0 && !(s[0] is Fail) {
        let t = s.drop_first();
        assert forall|j: int| 0 <= j < t.len() implies step_in_bounds(rs, #[trigger] t[j]) by {
            assert(t[j] == s[j + 1]);
        }
        lemma_until_fail_prefix(rs, t);
        let u = until_fail(s);
        assert(u == seq![s[0]] + until_fail(t));
        assert forall|j: int| 0 <= j < u.len() implies #[trigger] u[j] == s[j] && (s[j] is Fail
            ==> j == u.len() - 1) by {
            if j > 0 {
                assert(u[j] == until_fail(t)[j - 1]);
                assert(t[j - 1] == s[j]);
            }
        }
    }
}

/// Installing a resource writes only below the install root and stops at
/// its first refusal: every planned download goes to a non-empty relative
/// path of plain names, which joined to any root stays below it; every
/// archive step names a resource of the manifest that has an archive; and
/// a refusal can only be the last step.
pub proof fn lemma_plan_stays_inside(
    rs: Seq<ManifestResource>,
    id: Seq<char>,
    root: Seq<char>,
    k: int,
)
    requires
        0 <= k < install_plan(rs, id).len(),
    ensures
        match install_plan(rs, id)[k] {
            StepView::Download { destination, .. } => {
                &&& safe_resource_relative_spec(destination) is Ok
                &&& stays_inside(destination)
                &&& starts_with(join(root, destination), root)
            },
            StepView::InstallArchive { resource } => 0 <= resource < rs.len()
                && rs[resource].archive is Some,
            StepView::Fail { .. } => k == install_plan(rs, id).len() - 1,
        },
{
    let own = match find_resource(rs, id, 0) {
        Some(i) => own_steps(rs[i], i),
        None => Seq::empty(),
    };
    match find_resource(rs, id, 0) {
        Some(i) => {
            lemma_find_resource_bounds(rs, id, 0);
            let ds = rs[i].downloads@;
            assert forall|j: int| 0 <= j < own.len() implies step_in_bounds(rs, #[trigger] own[j]) by {
                if j < ds.len() {
                    assert(own[j] == download_step(ds[j]));
                }
            }
        },
        None => {},
    }
    lemma_component_steps_in_bounds(rs, rs, id);
    let c = all_component_steps(rs, id);
    let s = own + c;
    assert forall|j: int| 0 <= j < s.len() implies step_in_bounds(rs, #[trigger] s[j]) by {
        if j < own.len() {
            assert(s[j] == own[j]);
        } else {
            assert(s[j] == c[j - own.len()]);
        }
    }
    lemma_until_fail_prefix(rs, s);
    assert(install_plan(rs, id) == until_fail(s));
    let step = install_plan(rs, id)[k];
    assert(step == s[k]);
    match step {
        StepView::Download { destination, .. } => {
            lemma_join_stays_below_root(root, destination);
        },
        _ => {},
    }
}

/// Replacing the runtime never leaves both runtimes gone: the staged one is
/// moved in only once an installed one has been moved aside, and when it
/// cannot be moved in, the replaced runtime's backup is moved back.
pub proof fn lemma_swap_keeps_a_runtime(
    backup_exists: bool,
    current_exists: bool,
    last: Option<SwapAction>,
    failure: Option<Seq<char>>,
)
    ensures
        swap_next_spec(backup_exists, current_exists, last, failure) == SwapNextView::Do(
            SwapAction::MoveStagedIntoPlace,
        ) && current_exists ==> last == Some(SwapAction::MoveCurrentAside) && failure is None,
        last == Some(SwapAction::MoveStagedIntoPlace) && failure is Some ==> (swap_next_spec(
            backup_exists,
            current_exists,
            last,
            failure,
        ) matches SwapNextView::Fail { restore_backup, .. } && restore_backup == current_exists),
{
}

/// The supported formats are exactly PNG, JPG and JPEG, and the image
/// files reported as unsupported are exactly GIF, BMP, WebP, TIFF, SVG,
/// PSD and TGA, the extension compared without regard to ASCII case; a
/// relative path is accepted exactly when it stays inside its folder and
/// names a supported file.
pub proof fn lemma_supported_formats(p: Seq<char>)
    ensures
        has_supported_extension(p) <==> (lower_extension(p) == Some("png"@) || lower_extension(p)
            == Some("jpg"@) || lower_extension(p) == Some("jpeg"@)),
        has_image_extension(p) && !has_supported_extension(p) <==> (lower_extension(p) == Some(
            "gif"@,
        ) || lower_extension(p) == Some("bmp"@) || lower_extension(p) == Some("webp"@)
            || lower_extension(p) == Some("tif"@) || lower_extension(p) == Some("tiff"@)
            || lower_extension(p) == Some("svg"@) || lower_extension(p) == Some("psd"@)
            || lower_extension(p) == Some("tga"@)),
        safe_relative_spec(p) is Ok <==> stays_inside(p) && (lower_extension(p) == Some("png"@)
            || lower_extension(p) == Some("jpg"@) || lower_extension(p) == Some("jpeg"@)),
        safe_relative_spec(p) matches Ok(v) ==> v == p,
{
    reveal_strlit("png");
    reveal_strlit("jpg");
    reveal_strlit("jpeg");
    reveal_strlit("gif");
    reveal_strlit("bmp");
    reveal_strlit("webp");
    reveal_strlit("tif");
    reveal_strlit("tiff");
    reveal_strlit("svg");
    reveal_strlit("psd");
    reveal_strlit("tga");
    assert("gif"@ != "png"@) by {
        assert("gif"@[0] != "png"@[0]);
    }
    assert("gif"@ != "jpg"@) by {
        assert("gif"@[0] != "jpg"@[0]);
    }
    assert("gif"@ != "jpeg"@) by {
        assert("gif"@[0] != "jpeg"@[0]);
    }
    assert("bmp"@ != "png"@) by {
        assert("bmp"@[0] != "png"@[0]);
    }
    assert("bmp"@ != "jpg"@) by {
        assert("bmp"@[0] != "jpg"@[0]);
    }
    assert("bmp"@ != "jpeg"@) by {
        assert("bmp"@[0] != "jpeg"@[0]);
    }
    assert("webp"@ != "png"@) by {
        assert("webp"@[0] != "png"@[0]);
    }
    assert("webp"@ != "jpg"@) by {
        assert("webp"@[0] != "jpg"@[0]);
    }
    assert("webp"@ != "jpeg"@) by {
        assert("webp"@[0] != "jpeg"@[0]);
    }
    assert("tif"@ != "png"@) by {
        assert("tif"@[0] != "png"@[0]);
    }
    assert("tif"@ != "jpg"@) by {
        assert("tif"@[0] != "jpg"@[0]);
    }
    assert("tif"@ != "jpeg"@) by {
        assert("tif"@[0] != "jpeg"@[0]);
    }
    assert("tiff"@ != "png"@) by {
        assert("tiff"@[0] != "png"@[0]);
    }
    assert("tiff"@ != "jpg"@) by {
        assert("tiff"@[0] != "jpg"@[0]);
    }
    assert("tiff"@ != "jpeg"@) by {
        assert("tiff"@[0] != "jpeg"@[0]);
    }
    assert("svg"@ != "png"@) by {
        assert("svg"@[0] != "png"@[0]);
    }
    assert("svg"@ != "jpg"@) by {
        assert("svg"@[0] != "jpg"@[0]);
    }
    assert("svg"@ != "jpeg"@) by {
        assert("svg"@[0] != "jpeg"@[0]);
    }
    assert("psd"@ != "png"@) by {
        assert("psd"@[1] != "png"@[1]);
    }
    assert("psd"@ != "jpg"@) by {
        assert("psd"@[0] != "jpg"@[0]);
    }
    assert("psd"@ != "jpeg"@) by {
        assert("psd"@[0] != "jpeg"@[0]);
    }
    assert("tga"@ != "png"@) by {
        assert("tga"@[0] != "png"@[0]);
    }
    assert("tga"@ != "jpg"@) by {
        assert("tga"@[0] != "jpg"@[0]);
    }
    assert("tga"@ != "jpeg"@) by {
        assert("tga"@[0] != "jpeg"@[0]);
    }
}

/// FLUX is available exactly when every resource that is not optional is
/// present: the runtime (interpreter and package), the transformer, both
/// text-encoder shards, the VAE and the tokenizer; only the LoRA, the last
/// row, is optional, and its absence never makes FLUX unavailable.
pub proof fn lemma_flux_needs_every_required_resource(p: ProbePaths, f: ProbePresence)
    ensures
        flux_ready(f) <==> (f.python_is_file && f.runtime_package_is_dir && f.transformer_is_file
            && f.encoder_first_shard_is_file && f.encoder_second_shard_is_file && f.vae_is_file
            && f.tokenizer_is_dir),
        flux_ready(f) <==> (forall|i: int|
            0 <= i < 6 && !(#[trigger] status_table(p, f)[i]).6 ==> status_table(p, f)[i].5),
        status_table(p, f).len() == 6,
        forall|i: int| 0 <= i < 6 ==> ((#[trigger] status_table(p, f)[i]).6 <==> i == 5),
{
    let t = status_table(p, f);
    assert(!t[0].6 && !t[1].6 && !t[2].6 && !t[3].6 && !t[4].6 && t[5].6);
    if forall|i: int| 0 <= i < 6 && !(#[trigger] t[i]).6 ==> t[i].5 {
        assert(t[0].5 && t[1].5 && t[2].5 && t[3].5 && t[4].5);
    }
}

/// Transparency is kept exactly when both files carry alpha and decode as
/// PNG to the same canvas with the same alpha at every one of its
/// `width * height` pixels; a single pixel whose alpha differs fails it,
/// as does a different canvas. Files without alpha keep it trivially, and
/// a file that gains or loses alpha does not.
pub proof fn lemma_alpha_kept_pixel_for_pixel(
    source: FileRead,
    output: FileRead,
    source_has_alpha: bool,
    output_has_alpha: bool,
    x: (u32, u32, Seq<u8>),
    y: (u32, u32, Seq<u8>),
)
    requires
        read_bytes(source) is Some,
        read_bytes(output) is Some,
        png_decoding(read_bytes(source)->0) == Some(x),
        png_decoding(read_bytes(output)->0) == Some(y),
        x.2.len() == x.0 * x.1,
        y.2.len() == y.0 * y.1,
    ensures
        source_has_alpha != output_has_alpha ==> !alpha_kept(
            source,
            output,
            source_has_alpha,
            output_has_alpha,
        ),
        !source_has_alpha && !output_has_alpha ==> alpha_kept(source, output, false, false),
        alpha_kept(source, output, true, true) <==> (x.0 == y.0 && x.1 == y.1 && forall|i: int|
            0 <= i < x.0 * x.1 ==> #[trigger] x.2[i] == y.2[i]),
{
}

/// The copying pass skips an asset only when its output already exists and
/// overwriting is off; a skipped asset is never reported valid. When the
/// asset's path is accepted, its output lies outside the source folder and
/// its source inspects, an existing output with overwriting off is always
/// skipped.
pub proof fn lemma_copy_skips_only_existing_without_overwrite(
    source_root: Seq<char>,
    output_root: Seq<char>,
    overwrite: bool,
    c: CopyRecord,
)
    ensures
        copy_verdict(source_root, output_root, overwrite, c).status == "skipped"@ ==> c.output_exists
            && !overwrite && !copy_verdict(source_root, output_root, overwrite, c).valid,
        ({
            let value = c.relative_path@;
            &&& safe_relative_spec(value) is Ok
            &&& !inside_source(join(output_root, value), source_root)
            &&& inspection(join(source_root, value), source_root, c.source) is Ok
            &&& c.output_exists
            &&& !overwrite
        }) ==> copy_verdict(source_root, output_root, overwrite, c).status == "skipped"@
            && copy_verdict(source_root, output_root, overwrite, c).message
            == "Output already exists; overwrite is disabled"@,
{
    reveal_strlit("skipped");
    reveal_strlit("failed");
    reveal_strlit("complete");
    assert("skipped"@ != "failed"@) by {
        assert("skipped"@[0] != "failed"@[0]);
    }
    assert("skipped"@ != "complete"@) by {
        assert("skipped"@[0] != "complete"@[0]);
    }
    let value = c.relative_path@;
    if safe_relative_spec(value) is Ok {
        assert(safe_relative_spec(value)->Ok_0 == value);
    }
}

/// With overwriting on, or no output yet, a byte-identical copy of an
/// accepted asset whose output lies outside the source folder is reported
/// complete and valid, provided the source inspects and, when it is a PNG
/// with transparency, decodes as PNG.
pub proof fn lemma_identical_copy_completes(
    source_root: Seq<char>,
    output_root: Seq<char>,
    overwrite: bool,
    c: CopyRecord,
    o: FileRead,
)
    requires
        source_root.len() > 0,
        output_root.len() > 0,
        safe_relative_spec(c.relative_path@) is Ok,
        !inside_source(join(output_root, c.relative_path@), source_root),
        inspection(join(source_root, c.relative_path@), source_root, c.source) is Ok,
        overwrite || !c.output_exists,
        c.copied == Ok::<FileRead, String>(o),
        read_bytes(c.source) is Some,
        read_bytes(o) == read_bytes(c.source),
        ({
            let s = inspection(join(source_root, c.relative_path@), source_root, c.source)->Ok_0;
            s.extension == "png"@ && s.has_alpha ==> png_decoding(read_bytes(c.source)->0) is Some
        }),
    ensures
        copy_verdict(source_root, output_root, overwrite, c).valid,
        copy_verdict(source_root, output_root, overwrite, c).status == "complete"@,
        copy_verdict(source_root, output_root, overwrite, c).message
            == "Exact size, path, name, extension, and pixel alpha validated"@,
        copy_verdict(source_root, output_root, overwrite, c).output_path == join(
            output_root,
            c.relative_path@,
        ),
{
    let value = c.relative_path@;
    assert(safe_relative_spec(value)->Ok_0 == value);
    lemma_output_mirrors_source(source_root, output_root, value);
    lemma_strip_joined_root(source_root, value);
    lemma_strip_joined_root(output_root, value);
    let op = join(output_root, value);
    assert(inspection(op, output_root, o) is Ok);
    lemma_records_mirror(source_root, output_root, value, c.source, o);
}

/// `m` occurs somewhere in `t`.
pub open spec fn contains_text(t: Seq<char>, m: Seq<char>) -> bool {
    exists|k: int| 0 <= k && k + m.len() <= t.len() && #[trigger] t.subrange(k, k + m.len()) == m
}

/// The warning a scan reports for its cautions: none without cautions,
/// else the cautions joined by spaces.
pub open spec fn warning_of(cs: Seq<Seq<char>>) -> Option<Seq<char>> {
    if cs.len() == 0 {
        None
    } else {
        Some(join_with(cs, ' '))
    }
}

proof fn lemma_join_contains(ps: Seq<Seq<char>>, sep: char, i: int)
    requires
        0 <= i < ps.len(),
    ensures
        contains_text(join_with(ps, sep), ps[i]),
    decreases ps.len(),
{
    let j = join_with(ps, sep);
    if ps.len() == 1 {
        let k: int = 0;
        assert(j.subrange(k, k + ps[i].len()) =~= ps[i]);
    } else {
        let init = join_with(ps.drop_last(), sep);
        assert(j == init + seq![sep] + ps.last());
        if i == ps.len() - 1 {
            let k: int = init.len() as int + 1;
            assert(j.subrange(k, k + ps[i].len()) =~= ps[i]);
        } else {
            lemma_join_contains(ps.drop_last(), sep, i);
            let k = choose|k: int|
                0 <= k && k + ps[i].len() <= init.len() && #[trigger] init.subrange(
                    k,
                    k + ps[i].len(),
                ) == ps.drop_last()[i];
            assert(ps.drop_last()[i] == ps[i]);
            assert(j.subrange(k, k + ps[i].len()) =~= init.subrange(k, k + ps[i].len()));
        }
    }
}

proof fn lemma_max_memory_bounds(g: Seq<GpuView>)
    ensures
        forall|i: int| 0 <= i < g.len() ==> #[trigger] g[i].memory_mib <= max_memory(g),
        g.len() > 0 ==> exists|i: int| 0 <= i < g.len() && #[trigger] g[i].memory_mib == max_memory(g),
    decreases g.len(),
{
    if g.len() > 0 {
        lemma_max_memory_bounds(g.drop_last());
        assert forall|i: int| 0 <= i < g.len() implies #[trigger] g[i].memory_mib <= max_memory(g) by {
            if i < g.len() - 1 {
                assert(g[i] == g.drop_last()[i]);
            }
        }
        if g.last().memory_mib <= max_memory(g.drop_last()) && g.len() > 1 {
            let w = choose|i: int|
                0 <= i < g.drop_last().len() && #[trigger] g.drop_last()[i].memory_mib == max_memory(
                    g.drop_last(),
                );
            assert(g[w] == g.drop_last()[w]);
        } else {
            assert(g[g.len() - 1].memory_mib == max_memory(g));
        }
    }
}

/// What a system scan warns of, by the GPUs found and the memory and free
/// disk reported: without a GPU, exactly that downloads are disabled; with
/// one, each shortage it meets is named: no GPU with 6144 MiB or more,
/// under 16 GiB of memory, under 30 GiB of free disk; and with none of
/// them, no warning.
pub proof fn lemma_scan_warnings(g: Seq<GpuView>, memory: Option<u64>, disk: Option<u64>)
    ensures
        g.len() == 0 ==> warning_of(cautions(g, memory, disk)) == Some(
            "No CUDA-capable NVIDIA GPU with a working NVIDIA driver was detected. Resource downloads are disabled because FLUX cannot run on this PC."@,
        ),
        g.len() > 0 && (forall|i: int| 0 <= i < g.len() ==> #[trigger] g[i].memory_mib < 6144)
            ==> (warning_of(cautions(g, memory, disk)) is Some && contains_text(
            warning_of(cautions(g, memory, disk))->0,
            "Less than 6 GB of GPU memory was detected. FLUX may run out of memory at larger working resolutions."@,
        )),
        g.len() > 0 && (memory matches Some(m) && m < 16 * 1024 * 1024 * 1024) ==> (warning_of(
            cautions(g, memory, disk),
        ) is Some && contains_text(
            warning_of(cautions(g, memory, disk))->0,
            "Less than 16 GB of system memory was detected. Processing may be unstable or very slow."@,
        )),
        g.len() > 0 && (disk matches Some(d) && d < 30 * 1024 * 1024 * 1024) ==> (warning_of(
            cautions(g, memory, disk),
        ) is Some && contains_text(
            warning_of(cautions(g, memory, disk))->0,
            "Less than 30 GB is free on the app drive. The complete runtime and models may not fit."@,
        )),
        g.len() > 0 && (exists|i: int| 0 <= i < g.len() && #[trigger] g[i].memory_mib >= 6144) && !(
        memory matches Some(m) && m < 16 * 1024 * 1024 * 1024) && !(disk matches Some(d) && d < 30
            * 1024 * 1024 * 1024) ==> warning_of(cautions(g, memory, disk)) is None,
{
    lemma_max_memory_bounds(g);
    let cs = cautions(g, memory, disk);
    if g.len() > 0 {
        let last = (cs.len() - 1) as int;
        if forall|i: int| 0 <= i < g.len() ==> #[trigger] g[i].memory_mib < 6144 {
            let w = choose|i: int| 0 <= i < g.len() && #[trigger] g[i].memory_mib == max_memory(g);
            assert(g[w].memory_mib < 6144);
            assert(cs[0] == "Less than 6 GB of GPU memory was detected. FLUX may run out of memory at larger working resolutions."@);
            lemma_join_contains(cs, ' ', 0);
        }
        if memory matches Some(m) && m < 16 * 1024 * 1024 * 1024 {
            let k = if max_memory(g) < 6144 {
                1int
            } else {
                0int
            };
            assert(cs[k] == "Less than 16 GB of system memory was detected. Processing may be unstable or very slow."@);
            lemma_join_contains(cs, ' ', k);
        }
        if disk matches Some(d) && d < 30 * 1024 * 1024 * 1024 {
            assert(cs[last] == "Less than 30 GB is free on the app drive. The complete runtime and models may not fit."@);
            lemma_join_contains(cs, ' ', last);
        }
    }
}

/// Only PNG sources are held to their transparency: for a PNG source the
/// rule is exactly that the output keeps its alpha, and any other source
/// passes it.
pub proof fn lemma_alpha_rule_binds_png_sources(
    s: AssetView,
    o: AssetView,
    source: FileRead,
    output: FileRead,
)
    ensures
        s.extension == "png"@ ==> (alpha_rule(s, o, source, output) <==> alpha_kept(
            source,
            output,
            s.has_alpha,
            o.has_alpha,
        )),
        s.extension != "png"@ ==> alpha_rule(s, o, source, output),
{
}

/// A worker entry that did not complete keeps the worker's own status and
/// message, is never valid and records no output canvas, once its path is
/// accepted and its source inspects.
pub proof fn lemma_unfinished_entry_reported_as_is(
    source_root: Seq<char>,
    output_root: Seq<char>,
    item_rel: Seq<char>,
    item_status: Seq<char>,
    item_message: Seq<char>,
    source: FileRead,
    output: FileRead,
)
    requires
        safe_relative_spec(item_rel) is Ok,
        inspection(join(source_root, item_rel), source_root, source) is Ok,
        item_status != "complete"@,
    ensures
        ({
            let r = worker_verdict(
                source_root,
                output_root,
                item_rel,
                item_status,
                item_message,
                source,
                output,
            );
            &&& r.status == item_status
            &&& r.message == item_message
            &&& !r.valid
            &&& r.output_width is None
            &&& r.output_height is None
            &&& r.relative_path == item_rel
            &&& r.output_path == join(output_root, item_rel)
        }),
{
    assert(safe_relative_spec(item_rel)->Ok_0 == item_rel);
}

proof fn lemma_hex_char(k: int)
    requires
        0 <= k < 16,
    ensures
        hex_char(k) == "0123456789abcdef"@[k],
        lower_char(hex_char(k)) == hex_char(k),
{
    reveal_strlit("0123456789abcdef");
}

/// A byte string's hexadecimal text has two lower-case digits per byte, the
/// high half first.
pub proof fn lemma_hex_digits(d: Seq<u8>)
    ensures
        hex_bytes(d).len() == 2 * d.len(),
        forall|i: int|
            0 <= i < d.len() ==> hex_bytes(d)[2 * i] == "0123456789abcdef"@[(#[trigger] d[i] / 16) as int]
                && hex_bytes(d)[2 * i + 1] == "0123456789abcdef"@[(d[i] % 16) as int],
        lower(hex_bytes(d)) == hex_bytes(d),
    decreases d.len(),
{
    if d.len() > 0 {
        let init = d.drop_last();
        lemma_hex_digits(init);
        let x = d.last();
        assert(x >> 4u8 == x / 16) by (bit_vector);
        assert(x & 0xfu8 == x % 16) by (bit_vector);
        lemma_hex_char((x / 16) as int);
        lemma_hex_char((x % 16) as int);
        let h = hex_bytes(d);
        assert(h == hex_bytes(init) + seq![hex_char((x >> 4u8) as int), hex_char((x & 0xfu8) as int)]);
        assert forall|i: int| 0 <= i < d.len() implies h[2 * i] == "0123456789abcdef"@[(#[trigger] d[i]
            / 16) as int] && h[2 * i + 1] == "0123456789abcdef"@[(d[i] % 16) as int] by {
            if i < d.len() - 1 {
                assert(d[i] == init[i]);
            }
        }
        assert(lower(h) =~= h);
    } else {
        assert(lower(hex_bytes(d)) =~= hex_bytes(d));
    }
}

/// A digest matches its expected text exactly when that text, lower-cased,
/// is the digest's hexadecimal text: two digits per byte, either case.
pub proof fn lemma_digest_match_is_hex(d: Seq<u8>, expected: Seq<char>)
    ensures
        digest_matches(d, expected) <==> lower(expected) == hex_bytes(d),
{
    lemma_hex_digits(d);
}

/// A FLUX batch runs with 4, 8 or 12 inference steps and at a working
/// resolution of 256, 512, 768, 1024 or 2048 pixels, and with nothing else.
pub proof fn lemma_batch_setting_tiers(steps: u32, px: u32)
    ensures
        steps_allowed(steps) <==> (steps == 4 || steps == 8 || steps == 12),
        resolution_allowed(px) <==> (px == 256 || px == 512 || px == 768 || px == 1024 || px
            == 2048),
{
}

/// A resumed download asks for exactly the bytes after those kept, and only
/// when some are kept and fewer than the declared size; a part of exactly
/// the declared size is taken as complete; anything else starts afresh.
pub proof fn lemma_resume_keeps_what_fits(part_length: u64, expected_bytes: Option<u64>)
    ensures
        resume_start_spec(part_length, expected_bytes) matches ResumeStart::From { offset } ==> (
        offset == part_length && part_length > 0 && match expected_bytes {
            Some(n) => part_length < n,
            None => true,
        }),
        resume_start_spec(part_length, expected_bytes) is Complete <==> (part_length > 0
            && expected_bytes == Some(part_length)),
        resume_start_spec(part_length, expected_bytes) is Fresh <==> (part_length == 0 || (
        expected_bytes matches Some(n) && part_length > n)),
{
}

/// A failed download is retried at most three times, after waits of one,
/// two and four seconds: each wait twice the one before.
pub proof fn lemma_retry_backoff(attempt: u32)
    ensures
        retry_delay_spec(1) == Some(1000u64),
        1 <= attempt < 3 ==> (retry_delay_spec(attempt) matches Some(w) && retry_delay_spec(
            (attempt + 1) as u32,
        ) == Some((2 * w) as u64)),
        attempt == 0 || attempt >= 4 ==> retry_delay_spec(attempt) is None,
        attempt == 3 ==> retry_delay_spec(attempt) == Some(4000u64),
{
    reveal_with_fuel(crate::resources::pow2, 3);
}

} // verus!
