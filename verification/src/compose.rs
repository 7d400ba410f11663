//! The receipt composer: turns the validated document, the device's column
//! count and the rendered board bitmap into the ordered sequence of print
//! directives — title, date, board image, clue groups, credits and the final
//! cut. Directive order is exactly emission order; nothing is buffered or
//! reordered afterwards.
use crate::dateline::format_date;
use crate::dateline::spec_date_line;
use crate::layout::format_list;
use crate::layout::join_names_spec;
use crate::layout::lemma_join_names_len;
use crate::layout::wrap;
use crate::layout::wrap_spec;
use crate::model::clue_wf;
use crate::model::doc_wf;
use crate::model::Clue;
use crate::model::ClueList;
use crate::model::Direction;
use crate::model::MiniCrossword;
use crate::width::display_width;
use crate::width::str_width;
use crate::width::MAX_TEXT_LEN;
use vstd::prelude::*;

verus! {

/// One print directive, in the order the transport receives them.
pub enum Directive {
    /// A text line, terminated and flushed by the transport.
    Line(String),
    /// A vertical feed.
    Feed,
    /// The board bitmap, already encoded for the transport.
    Bitmap(Vec<u8>),
    /// The cut that terminates the receipt.
    Cut,
}

/// The mathematical form of a directive: character and byte sequences.
pub enum DirectiveModel {
    Line(Seq<char>),
    Feed,
    Bitmap(Seq<u8>),
    Cut,
}

impl View for Directive {
    type V = DirectiveModel;

    open spec fn view(&self) -> DirectiveModel {
        match *self {
            Directive::Line(s) => DirectiveModel::Line(s@),
            Directive::Feed => DirectiveModel::Feed,
            Directive::Bitmap(b) => DirectiveModel::Bitmap(b@),
            Directive::Cut => DirectiveModel::Cut,
        }
    }
}

pub open spec fn views(s: Seq<Directive>) -> Seq<DirectiveModel> {
    s.map_values(|d: Directive| d@)
}

/// A clue group referenced a position outside the clue sequence.
#[derive(Clone, Copy, Debug, PartialEq, Eq, Structural)]
pub struct IndexError {
    pub index: u16,
}

pub open spec fn spec_direction_name(d: Direction) -> Seq<char> {
    match d {
        Direction::Across => "Across:"@,
        Direction::Down => "Down:"@,
    }
}

fn direction_name(d: Direction) -> (r: &'static str)
    ensures
        r@ == spec_direction_name(d),
{
    match d {
        Direction::Across => "Across:",
        Direction::Down => "Down:",
    }
}

/// A run of spaces of the given length.
pub open spec fn spec_spaces(n: nat) -> Seq<char> {
    Seq::new(n, |i: int| ' ')
}

fn spaces_string(n: usize) -> (r: String)
    ensures
        r@ == spec_spaces(n as nat),
{
    let mut r = String::new();
    let mut i: usize = 0;
    proof {
        assert(r@ =~= spec_spaces(0));
    }
    while i < n
        invariant
            0 <= i <= n,
            r@ == spec_spaces(i as nat),
        decreases n - i,
    {
        r.append(" ");
        proof {
            reveal_strlit(" ");
            assert(" "@ =~= seq![' ']);
            assert(spec_spaces((i + 1) as nat) =~= spec_spaces(i as nat) + seq![' ']);
        }
        i = i + 1;
    }
    r
}

/// The wrapped lines of one clue: the label (with ": ") indents the first
/// line, and spaces of the label's display width indent the rest.
pub open spec fn clue_directives(c: Clue, width: int) -> Seq<DirectiveModel> {
    let init = c.label@ + ": "@;
    wrap_spec(c.text@[0].plain@, width, init, spec_spaces(str_width(init))).map_values(
        |l: Seq<char>| DirectiveModel::Line(l),
    )
}

pub open spec fn clues_directives(idxs: Seq<u16>, clues: Seq<Clue>, width: int) -> Seq<
    DirectiveModel,
>
    decreases idxs.len(),
{
    if idxs.len() == 0 {
        Seq::empty()
    } else {
        clue_directives(clues[idxs[0] as int], width) + clues_directives(
            idxs.drop_first(),
            clues,
            width,
        )
    }
}

/// One clue group: its direction header, its clues' wrapped lines in display
/// order, and a trailing feed.
pub open spec fn group_directives(g: ClueList, clues: Seq<Clue>, width: int) -> Seq<
    DirectiveModel,
> {
    seq![DirectiveModel::Line(spec_direction_name(g.name))] + clues_directives(
        g.clues@,
        clues,
        width,
    ) + seq![DirectiveModel::Feed]
}

pub open spec fn groups_directives(gs: Seq<ClueList>, clues: Seq<Clue>, width: int) -> Seq<
    DirectiveModel,
>
    decreases gs.len(),
{
    if gs.len() == 0 {
        Seq::empty()
    } else {
        group_directives(gs[0], clues, width) + groups_directives(gs.drop_first(), clues, width)
    }
}

/// The credit block: the wrapped constructor list under "By ", the editor
/// line, and the cut.
pub open spec fn credit_directives(doc: MiniCrossword, width: int) -> Seq<DirectiveModel> {
    wrap_spec(join_names_spec(doc.constructors.deep_view()), width, "By "@, "   "@).map_values(
        |l: Seq<char>| DirectiveModel::Line(l),
    ) + seq![
        DirectiveModel::Line("Edited by "@ + doc.editor@),
        DirectiveModel::Cut,
    ]
}

/// The whole receipt for the document's first board.
pub open spec fn compose_spec(doc: MiniCrossword, width: int, png: Seq<u8>) -> Seq<
    DirectiveModel,
> {
    let p = doc.body@[0];
    seq![
        DirectiveModel::Line("The NYT Mini Crossword"@),
        DirectiveModel::Line(
            spec_date_line(
                doc.publication_date.year as int,
                doc.publication_date.month as int,
                doc.publication_date.day as int,
            ),
        ),
        DirectiveModel::Feed,
        DirectiveModel::Bitmap(png),
        DirectiveModel::Feed,
        DirectiveModel::Feed,
    ] + groups_directives(p.clue_lists@, p.clues@, width) + credit_directives(doc, width)
}

/// Every clue reference of every group stays within the clue sequence.
pub open spec fn indices_ok(p: crate::model::Puzzle) -> bool {
    forall|g: int, j: int|
        0 <= g < p.clue_lists@.len() && 0 <= j < p.clue_lists@[g].clues@.len() ==> (
        #[trigger] p.clue_lists@[g].clues@[j]) < p.clues@.len()
}

/// The first out-of-range clue reference within one group, in display order.
pub open spec fn first_oob_in(idxs: Seq<u16>, n: int) -> Option<u16>
    decreases idxs.len(),
{
    if idxs.len() == 0 {
        Option::None
    } else if idxs[0] as int >= n {
        Option::Some(idxs[0])
    } else {
        first_oob_in(idxs.drop_first(), n)
    }
}

/// The first out-of-range clue reference over all groups, in emission order.
pub open spec fn first_oob(gs: Seq<ClueList>, n: int) -> Option<u16>
    decreases gs.len(),
{
    if gs.len() == 0 {
        Option::None
    } else if first_oob_in(gs[0].clues@, n) is Some {
        first_oob_in(gs[0].clues@, n)
    } else {
        first_oob(gs.drop_first(), n)
    }
}

/// Pushes each wrapped line as a text-line directive.
fn push_lines(out: &mut Vec<Directive>, lines: &Vec<String>)
    ensures
        views(final (out)@) == views(old(out)@) + lines.deep_view().map_values(
            |l: Seq<char>| DirectiveModel::Line(l),
        ),
{
    let ghost base = views(out@);
    let ghost target = lines.deep_view().map_values(|l: Seq<char>| DirectiveModel::Line(l));
    let mut i: usize = 0;
    proof {
        assert(views(out@) =~= base + target.take(0));
    }
    while i < lines.len()
        invariant
            0 <= i <= lines@.len(),
            target == lines.deep_view().map_values(|l: Seq<char>| DirectiveModel::Line(l)),
            target.len() == lines@.len(),
            base == views(old(out)@),
            views(out@) == base + target.take(i as int),
        decreases lines@.len() - i,
    {
        let ghost prev = views(out@);
        let line = lines[i].clone();
        out.push(Directive::Line(line));
        proof {
            assert(views(out@) =~= prev.push(DirectiveModel::Line(lines@[i as int]@)));
            assert(lines.deep_view()[i as int] == lines@[i as int]@);
            assert(target[i as int] == DirectiveModel::Line(lines@[i as int]@));
            assert(base + target.take(i + 1) =~= (base + target.take(i as int)).push(
                target[i as int],
            ));
        }
        i = i + 1;
    }
    proof {
        assert(target.take(lines@.len() as int) =~= target);
    }
}

/// Emits one clue group: its header, each referenced clue's wrapped lines,
/// and a trailing feed. Fails on the first clue reference that lies outside
/// the clue sequence, emitting nothing further.
fn emit_group(out: &mut Vec<Directive>, list: &ClueList, clues: &Vec<Clue>, width: usize) -> (res:
    Result<(), IndexError>)
    requires
        forall|i: int| 0 <= i < clues@.len() ==> clue_wf(#[trigger] clues@[i]),
    ensures
        res matches Ok(_) ==> views(final (out)@) == views(old(out)@) + group_directives(
            *list,
            clues@,
            width as int,
        ),
        res matches Ok(_) ==> forall|j: int|
            0 <= j < list.clues@.len() ==> (#[trigger] list.clues@[j]) < clues@.len(),
        res matches Ok(_) ==> first_oob_in(list.clues@, clues@.len() as int) is None,
        res matches Err(e) ==> Option::Some(e.index) == first_oob_in(
            list.clues@,
            clues@.len() as int,
        ),
        res matches Err(e) ==> exists|j: int|
            0 <= j < list.clues@.len() && (#[trigger] list.clues@[j]) == e.index
                && e.index as int >= clues@.len(),
{
    let ghost base = views(out@);
    let ghost idxs = list.clues@;
    let ghost n = clues@.len() as int;
    let ghost w = width as int;
    let header = String::from_str(direction_name(list.name));
    out.push(Directive::Line(header));
    proof {
        assert(views(out@) =~= base.push(
            DirectiveModel::Line(spec_direction_name(list.name)),
        ));
        assert(base.push(DirectiveModel::Line(spec_direction_name(list.name))) =~= base + seq![
            DirectiveModel::Line(spec_direction_name(list.name)),
        ]);
        assert(idxs.skip(0) =~= idxs);
    }
    let mut j: usize = 0;
    while j < list.clues.len()
        invariant
            0 <= j <= idxs.len(),
            idxs == list.clues@,
            n == clues@.len() as int,
            w == width as int,
            forall|i: int| 0 <= i < clues@.len() ==> clue_wf(#[trigger] clues@[i]),
            forall|t: int| 0 <= t < j ==> ((#[trigger] idxs[t]) as int) < n,
            first_oob_in(idxs.skip(j as int), n) == first_oob_in(idxs, n),
            views(out@) + clues_directives(idxs.skip(j as int), clues@, w) =~= base + seq![
                DirectiveModel::Line(spec_direction_name(list.name)),
            ] + clues_directives(idxs, clues@, w),
        decreases idxs.len() - j,
    {
        let idx = list.clues[j];
        let ghost s = idxs.skip(j as int);
        proof {
            assert(s[0] == idxs[j as int]);
            assert(s.drop_first() =~= idxs.skip(j + 1));
        }
        if idx as usize >= clues.len() {
            proof {
                assert(first_oob_in(s, n) == Option::Some(idx));
            }
            return Err(IndexError { index: idx });
        }
        let clue = &clues[idx as usize];
        proof {
            assert(clue_wf(clues@[idx as int]));
            reveal_strlit(": ");
        }
        let mut init = clue.label.clone();
        init.append(": ");
        let iw = display_width(init.as_str());
        let cont = spaces_string(iw);
        let lines = wrap(clue.text[0].plain.as_str(), width, init.as_str(), cont.as_str());
        let ghost prev = views(out@);
        push_lines(out, &lines);
        proof {
            assert(init@ == clues@[idx as int].label@ + ": "@);
            assert(cont@ == spec_spaces(str_width(init@)));
            assert(lines.deep_view().map_values(|l: Seq<char>| DirectiveModel::Line(l))
                == clue_directives(clues@[idx as int], w));
            assert(views(out@) =~= prev + clue_directives(clues@[idx as int], w));
            assert(clues_directives(s, clues@, w) == clue_directives(clues@[idx as int], w)
                + clues_directives(idxs.skip(j + 1), clues@, w));
            assert((prev + clue_directives(clues@[idx as int], w)) + clues_directives(
                idxs.skip(j + 1),
                clues@,
                w,
            ) =~= prev + clues_directives(s, clues@, w));
        }
        j = j + 1;
    }
    out.push(Directive::Feed);
    proof {
        assert(idxs.skip(idxs.len() as int) =~= Seq::<u16>::empty());
        assert(first_oob_in(Seq::<u16>::empty(), n) is None);
        assert(clues_directives(Seq::<u16>::empty(), clues@, w) =~= Seq::<DirectiveModel>::empty());
        assert(views(out@) =~= base + seq![
            DirectiveModel::Line(spec_direction_name(list.name)),
        ] + clues_directives(idxs, clues@, w) + seq![DirectiveModel::Feed]);
        assert(views(out@) =~= base + group_directives(*list, clues@, w));
    }
    Ok(())
}

/// Composes the whole receipt for the document's first board: the title and
/// date lines, a feed, the board bitmap, two feeds, each clue group, the
/// credit block and the cut. Succeeds exactly when every clue reference is
/// within range; otherwise it reports the first out-of-range reference and
/// produces no directives at all.
pub fn compose(doc: &MiniCrossword, chars_per_line: u8, png: Vec<u8>) -> (r: Result<
    Vec<Directive>,
    IndexError,
>)
    requires
        doc_wf(*doc),
    ensures
        r matches Ok(_) <==> indices_ok(doc.body@[0]),
        r matches Ok(ds) ==> views(ds@) == compose_spec(*doc, chars_per_line as int, png@),
        r matches Err(e) ==> Option::Some(e.index) == first_oob(
            doc.body@[0].clue_lists@,
            doc.body@[0].clues@.len() as int,
        ),
{
    let ghost gpng = png@;
    let ghost w = chars_per_line as int;
    let width = chars_per_line as usize;
    let puzzle = &doc.body[0];
    let ghost glists = puzzle.clue_lists@;
    let ghost gclues = puzzle.clues@;
    let ghost n = gclues.len() as int;
    let mut out: Vec<Directive> = Vec::new();
    out.push(Directive::Line(String::from_str("The NYT Mini Crossword")));
    let date = doc.publication_date;
    out.push(Directive::Line(format_date(date.year, date.month, date.day)));
    out.push(Directive::Feed);
    out.push(Directive::Bitmap(png));
    out.push(Directive::Feed);
    out.push(Directive::Feed);
    let ghost header = seq![
        DirectiveModel::Line("The NYT Mini Crossword"@),
        DirectiveModel::Line(
            spec_date_line(date.year as int, date.month as int, date.day as int),
        ),
        DirectiveModel::Feed,
        DirectiveModel::Bitmap(gpng),
        DirectiveModel::Feed,
        DirectiveModel::Feed,
    ];
    proof {
        assert(views(out@) =~= header);
        assert(glists.skip(0) =~= glists);
    }
    let mut g: usize = 0;
    while g < puzzle.clue_lists.len()
        invariant
            0 <= g <= glists.len(),
            glists == doc.body@[0].clue_lists@,
            gclues == doc.body@[0].clues@,
            n == gclues.len() as int,
            w == chars_per_line as int,
            width == chars_per_line as usize,
            *puzzle == doc.body@[0],
            doc_wf(*doc),
            forall|gg: int, jj: int|
                0 <= gg < g && 0 <= jj < glists[gg].clues@.len() ==> (
                #[trigger] glists[gg].clues@[jj]) < gclues.len(),
            first_oob(glists.skip(g as int), n) == first_oob(glists, n),
            views(out@) + groups_directives(glists.skip(g as int), gclues, w) =~= header
                + groups_directives(glists, gclues, w),
        decreases glists.len() - g,
    {
        let list = &puzzle.clue_lists[g];
        let ghost sg = glists.skip(g as int);
        proof {
            assert(sg[0] == glists[g as int]);
            assert(sg.drop_first() =~= glists.skip(g + 1));
        }
        let ghost prev = views(out@);
        let res = emit_group(&mut out, list, &puzzle.clues, width);
        match res {
            Ok(_) => {
                proof {
                    assert(first_oob_in(glists[g as int].clues@, n) is None);
                    assert(views(out@) =~= prev + group_directives(glists[g as int], gclues, w));
                    assert(groups_directives(sg, gclues, w) == group_directives(
                        glists[g as int],
                        gclues,
                        w,
                    ) + groups_directives(glists.skip(g + 1), gclues, w));
                    assert((prev + group_directives(glists[g as int], gclues, w))
                        + groups_directives(glists.skip(g + 1), gclues, w) =~= prev
                        + groups_directives(sg, gclues, w));
                    assert forall|gg: int, jj: int|
                        0 <= gg < g + 1 && 0 <= jj < glists[gg].clues@.len() implies (
                    #[trigger] glists[gg].clues@[jj]) < gclues.len() by {
                        if gg == g {
                            assert(glists[gg].clues@[jj] < gclues.len());
                        }
                    }
                }
            },
            Err(e) => {
                proof {
                    assert(first_oob_in(sg[0].clues@, n) == Option::Some(e.index));
                    assert(first_oob(sg, n) == Option::Some(e.index));
                    let bad = choose|jj: int|
                        0 <= jj < glists[g as int].clues@.len() && glists[g as int].clues@[jj]
                            == e.index && e.index as int >= n;
                    assert(glists[g as int].clues@[bad] == e.index);
                    assert(!indices_ok(doc.body@[0]));
                }
                return Err(e);
            },
        }
        g = g + 1;
    }
    proof {
        assert(glists.skip(glists.len() as int) =~= Seq::<ClueList>::empty());
        assert(groups_directives(Seq::<ClueList>::empty(), gclues, w)
            =~= Seq::<DirectiveModel>::empty());
        assert(views(out@) =~= header + groups_directives(glists, gclues, w));
        assert(indices_ok(doc.body@[0]));
    }
    let joined = format_list(&doc.constructors);
    proof {
        let dv = doc.constructors.deep_view();
        assert(forall|i: int| 0 <= i < dv.len() ==> (#[trigger] dv[i]).len() <= 10000) by {
            assert(forall|i: int|
                0 <= i < dv.len() ==> #[trigger] dv[i] == doc.constructors@[i]@);
        }
        lemma_join_names_len(dv, 10000);
        reveal_strlit("By ");
        reveal_strlit("   ");
    }
    let credit_lines = wrap(joined.as_str(), width, "By ", "   ");
    let ghost before_credits = views(out@);
    push_lines(&mut out, &credit_lines);
    let mut edited = String::from_str("Edited by ");
    edited.append(doc.editor.as_str());
    let ghost edited_view = edited@;
    out.push(Directive::Line(edited));
    out.push(Directive::Cut);
    proof {
        let credit_wrapped = wrap_spec(
            join_names_spec(doc.constructors.deep_view()),
            w,
            "By "@,
            "   "@,
        ).map_values(|l: Seq<char>| DirectiveModel::Line(l));
        assert(credit_lines.deep_view().map_values(|l: Seq<char>| DirectiveModel::Line(l))
            == credit_wrapped);
        assert(edited_view == "Edited by "@ + doc.editor@);
        assert(views(out@) =~= ((before_credits + credit_wrapped).push(
            DirectiveModel::Line(edited_view),
        )).push(DirectiveModel::Cut));
        assert(views(out@) =~= before_credits + credit_directives(*doc, w));
        assert(views(out@) =~= compose_spec(*doc, w, gpng));
    }
    Ok(out)
}

} // verus!
