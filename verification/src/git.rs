//! What the prompt says of a git repository.

use vstd::prelude::*;

use crate::style;
use crate::style::{Hue, Piece};
use crate::text;
use crate::text::push_decimal;

verus! {

/// The bit of a file that is new in the index.
pub const INDEX_NEW: u32 = 1;

/// The bit of a file that is changed in the index.
pub const INDEX_MODIFIED: u32 = 2;

/// The bit of a file that is deleted in the index.
pub const INDEX_DELETED: u32 = 4;

/// The bit of a file that is new in the working tree.
pub const WT_NEW: u32 = 128;

/// The bit of a file that is changed in the working tree.
pub const WT_MODIFIED: u32 = 256;

/// The bit of a file that is deleted in the working tree.
pub const WT_DELETED: u32 = 512;

/// How many files of a repository were added, changed and deleted, in the index
/// or in the working tree.
#[derive(Debug, Clone, Copy, PartialEq, Eq, Structural)]
pub struct StatusCounts {
    pub added: usize,
    pub modified: usize,
    pub deleted: usize,
}

/// Whether a status has one of two bits.
pub open spec fn has_either(status: u32, in_index: u32, in_tree: u32) -> bool {
    status & (in_index | in_tree) != 0
}

/// How many statuses have one of two bits.
pub open spec fn count_of(statuses: Seq<u32>, in_index: u32, in_tree: u32) -> nat
    decreases statuses.len(),
{
    if statuses.len() == 0 {
        0
    } else {
        count_of(statuses.drop_last(), in_index, in_tree) + if has_either(
            statuses.last(),
            in_index,
            in_tree,
        ) {
            1nat
        } else {
            0nat
        }
    }
}

/// Counts the files of a repository by their statuses. A file can count more
/// than once: it may be new in the index and changed in the working tree.
pub fn git_file_status_counts(statuses: &[u32]) -> (r: StatusCounts)
    ensures
        r.added == count_of(statuses@, INDEX_NEW, WT_NEW),
        r.modified == count_of(statuses@, INDEX_MODIFIED, WT_MODIFIED),
        r.deleted == count_of(statuses@, INDEX_DELETED, WT_DELETED),
{
    let mut added: usize = 0;
    let mut modified: usize = 0;
    let mut deleted: usize = 0;
    let mut i: usize = 0;
    while i < statuses.len()
        invariant
            i <= statuses@.len(),
            added <= i,
            modified <= i,
            deleted <= i,
            added == count_of(statuses@.take(i as int), INDEX_NEW, WT_NEW),
            modified == count_of(statuses@.take(i as int), INDEX_MODIFIED, WT_MODIFIED),
            deleted == count_of(statuses@.take(i as int), INDEX_DELETED, WT_DELETED),
        decreases statuses@.len() - i,
    {
        let status: u32 = statuses[i];
        assert(statuses@.take(i + 1).drop_last() =~= statuses@.take(i as int));
        if status & (INDEX_NEW | WT_NEW) != 0 {
            added += 1;
        }
        if status & (INDEX_MODIFIED | WT_MODIFIED) != 0 {
            modified += 1;
        }
        if status & (INDEX_DELETED | WT_DELETED) != 0 {
            deleted += 1;
        }
        i += 1;
    }
    assert(statuses@.take(i as int) =~= statuses@);
    StatusCounts { added, modified, deleted }
}

/// What stands before a count: an icon of a patched font and a space, or an
/// ASCII sign.
pub open spec fn count_prefix(nerd_font: bool, icon: char, sign: char) -> Seq<char> {
    if nerd_font {
        seq![icon, ' ']
    } else {
        seq![sign]
    }
}

/// A count in its colour, or nothing where it is zero.
pub open spec fn count_piece(hue: Hue, prefix: Seq<char>, count: nat) -> Seq<
    (Option<Hue>, Seq<char>),
> {
    if count == 0 {
        seq![]
    } else {
        seq![(Some(hue), prefix + text::decimal(count))]
    }
}

/// `parts` with a space between each two of them.
pub open spec fn spaced(parts: Seq<(Option<Hue>, Seq<char>)>) -> Seq<(Option<Hue>, Seq<char>)>
    decreases parts.len(),
{
    if parts.len() <= 1 {
        parts
    } else {
        spaced(parts.drop_last()).push((None, " "@)).push(parts.last())
    }
}

/// The counts that are not zero: changed in yellow, added in green, deleted in
/// red.
pub open spec fn count_pieces(counts: StatusCounts, nerd_font: bool) -> Seq<
    (Option<Hue>, Seq<char>),
> {
    count_piece(Hue::Yellow, count_prefix(nerd_font, '\u{ea73}', '~'), counts.modified as nat)
        + count_piece(Hue::Green, count_prefix(nerd_font, '\u{f067}', '+'), counts.added as nat)
        + count_piece(Hue::Red, count_prefix(nerd_font, '\u{f068}', '-'), counts.deleted as nat)
}

/// What the prompt shows of the counts, where there are any.
pub open spec fn status_pieces(counts: Option<StatusCounts>, nerd_font: bool) -> Seq<
    (Option<Hue>, Seq<char>),
> {
    match counts {
        Some(c) => spaced(count_pieces(c, nerd_font)),
        None => seq![],
    }
}

/// Puts a count behind the pieces unless it is zero, and a space before it
/// unless it is the first.
fn push_count(
    out: &mut Vec<Piece>,
    hue: Hue,
    nerd_font: bool,
    icon: char,
    sign: char,
    count: usize,
    Ghost(parts): Ghost<Seq<(Option<Hue>, Seq<char>)>>,
)
    requires
        style::pieces(old(out)@) == spaced(parts),
    ensures
        style::pieces(final(out)@) == spaced(
            parts + count_piece(hue, count_prefix(nerd_font, icon, sign), count as nat),
        ),
{
    let ghost piece = count_piece(hue, count_prefix(nerd_font, icon, sign), count as nat);
    if count == 0 {
        assert(parts + piece =~= parts);
        return;
    }
    let ghost before = out@;
    proof {
        lemma_spaced_len(parts);
    }
    if out.len() > 0 {
        out.push(Piece::plain(" "));
        assert(style::pieces(out@) =~= style::pieces(before).push((None, " "@)));
    }
    let ghost middle = out@;
    let mut label: String = String::new();
    if nerd_font {
        label.push(icon);
        label.push(' ');
    } else {
        label.push(sign);
    }
    assert(label@ =~= count_prefix(nerd_font, icon, sign));
    push_decimal(&mut label, count as u64);
    out.push(Piece { hue: Some(hue), text: label });
    proof {
        let all = parts + piece;
        assert(all.drop_last() =~= parts);
        assert(all.last() == piece[0]);
        assert(style::pieces(out@) =~= style::pieces(middle).push(piece[0]));
        if parts.len() == 0 {
            assert(all =~= seq![piece[0]]);
            assert(style::pieces(out@) =~= spaced(all));
        }
    }
}

proof fn lemma_spaced_len(parts: Seq<(Option<Hue>, Seq<char>)>)
    ensures
        spaced(parts).len() == 0 <==> parts.len() == 0,
    decreases parts.len(),
{
    if parts.len() > 1 {
        lemma_spaced_len(parts.drop_last());
    }
}

/// Formats the counts of a repository for the prompt. Nothing is shown outside
/// a repository, or where nothing was touched.
pub fn format_git_status_at(counts: Option<StatusCounts>, nerd_font: bool) -> (r: Vec<Piece>)
    ensures
        style::pieces(r@) == status_pieces(counts, nerd_font),
{
    let mut out: Vec<Piece> = Vec::new();
    assert(style::pieces(out@) =~= seq![]);
    match counts {
        Some(c) => {
            let ghost none: Seq<(Option<Hue>, Seq<char>)> = seq![];
            let ghost first = count_piece(
                Hue::Yellow,
                count_prefix(nerd_font, '\u{ea73}', '~'),
                c.modified as nat,
            );
            let ghost second = count_piece(
                Hue::Green,
                count_prefix(nerd_font, '\u{f067}', '+'),
                c.added as nat,
            );
            assert(none + first =~= first);
            push_count(&mut out, Hue::Yellow, nerd_font, '\u{ea73}', '~', c.modified, Ghost(none));
            push_count(&mut out, Hue::Green, nerd_font, '\u{f067}', '+', c.added, Ghost(first));
            push_count(
                &mut out,
                Hue::Red,
                nerd_font,
                '\u{f068}',
                '-',
                c.deleted,
                Ghost(first + second),
            );
        },
        None => {},
    }
    out
}

/// Formats the counts of a repository with ASCII signs.
pub fn format_git_status(counts: Option<StatusCounts>) -> (r: Vec<Piece>)
    ensures
        style::pieces(r@) == status_pieces(counts, false),
{
    format_git_status_at(counts, false)
}

/// The label of a branch.
pub open spec fn branch_text(branch: Seq<char>, nerd_font: bool) -> Seq<char> {
    if nerd_font {
        seq!['\u{e725}', ' '] + branch
    } else {
        branch
    }
}

/// Formats the name of a branch for the prompt.
pub fn format_branch_label(branch: &str, nerd_font: bool) -> (r: Piece)
    ensures
        r@ == (Some(Hue::Cyan), branch_text(branch@, nerd_font)),
{
    let mut label: String = String::new();
    if nerd_font {
        label.push('\u{e725}');
        label.push(' ');
    }
    label.append(branch);
    assert(label@ =~= branch_text(branch@, nerd_font));
    Piece { hue: Some(Hue::Cyan), text: label }
}

/// Nothing is shown of a repository in which nothing was touched, and something
/// is shown where a file was added, changed or deleted.
pub proof fn law_untouched_repository_shows_nothing(counts: StatusCounts, nerd_font: bool)
    ensures
        status_pieces(Some(counts), nerd_font).len() == 0 <==> counts.added == 0 && counts.modified
            == 0 && counts.deleted == 0,
{
    lemma_spaced_len(count_pieces(counts, nerd_font));
}

/// Whether one file more counts: `more` is one greater than `before` where it
/// does, and the same where it does not.
pub open spec fn counts_once_more(before: nat, more: nat, counts: bool) -> bool {
    more == if counts {
        before + 1
    } else {
        before
    }
}

proof fn lemma_either_bit(status: u32, in_index: u32, in_tree: u32)
    ensures
        has_either(status, in_index, in_tree) <==> status & in_index != 0 || status & in_tree != 0,
{
    assert(status & (in_index | in_tree) != 0 <==> status & in_index != 0 || status & in_tree
        != 0) by (bit_vector);
}

/// One file more raises the count of added files by one exactly where it is new
/// in the index or in the working tree, and likewise the counts of changed and
/// of deleted files. What else is said of the file makes no difference.
pub proof fn law_each_file_counts_by_its_own_bits(statuses: Seq<u32>, status: u32)
    ensures
        ({
            let more = statuses.push(status);
            &&& counts_once_more(
                count_of(statuses, 1, 128),
                count_of(more, 1, 128),
                status & 1 != 0 || status & 128 != 0,
            )
            &&& counts_once_more(
                count_of(statuses, 2, 256),
                count_of(more, 2, 256),
                status & 2 != 0 || status & 256 != 0,
            )
            &&& counts_once_more(
                count_of(statuses, 4, 512),
                count_of(more, 4, 512),
                status & 4 != 0 || status & 512 != 0,
            )
        }),
{
    assert(statuses.push(status).drop_last() =~= statuses);
    lemma_either_bit(status, 1, 128);
    lemma_either_bit(status, 2, 256);
    lemma_either_bit(status, 4, 512);
}

/// The bits by which files are counted are those that git gives them: a file
/// that is new, changed or deleted, in the index or in the working tree.
pub proof fn law_files_are_counted_by_the_bits_of_git(statuses: Seq<u32>)
    ensures
        count_of(statuses, INDEX_NEW, WT_NEW) == count_of(statuses, 1, 128),
        count_of(statuses, INDEX_MODIFIED, WT_MODIFIED) == count_of(statuses, 2, 256),
        count_of(statuses, INDEX_DELETED, WT_DELETED) == count_of(statuses, 4, 512),
{
}

/// In a repository without files nothing is counted.
pub proof fn law_no_files_no_counts(in_index: u32, in_tree: u32)
    ensures
        count_of(seq![], in_index, in_tree) == 0,
{
}

/// It does not matter in which order files are counted, nor in how many parts:
/// the counts of two lists are those of both together.
pub proof fn law_counts_of_two_lists_add_up(
    first: Seq<u32>,
    second: Seq<u32>,
    in_index: u32,
    in_tree: u32,
)
    ensures
        count_of(first + second, in_index, in_tree) == count_of(first, in_index, in_tree)
            + count_of(second, in_index, in_tree),
        count_of(first + second, in_index, in_tree) == count_of(second + first, in_index, in_tree),
    decreases first.len() + second.len(),
{
    lemma_counts_add_up(first, second, in_index, in_tree);
    lemma_counts_add_up(second, first, in_index, in_tree);
}

proof fn lemma_counts_add_up(first: Seq<u32>, second: Seq<u32>, in_index: u32, in_tree: u32)
    ensures
        count_of(first + second, in_index, in_tree) == count_of(first, in_index, in_tree)
            + count_of(second, in_index, in_tree),
    decreases second.len(),
{
    if second.len() == 0 {
        assert(first + second =~= first);
    } else {
        lemma_counts_add_up(first, second.drop_last(), in_index, in_tree);
        assert((first + second).drop_last() =~= first + second.drop_last());
    }
}

/// A single kind of change is one piece: its sign and its count, in its colour.
/// With the icons of a patched font a space stands between icon and count.
pub proof fn law_one_kind_of_change_is_one_piece(n: usize)
    requires
        n > 0,
    ensures
        ({
            let changed = Some(StatusCounts { added: 0, modified: n, deleted: 0 });
            let added = Some(StatusCounts { added: n, modified: 0, deleted: 0 });
            let deleted = Some(StatusCounts { added: 0, modified: 0, deleted: n });
            let number = text::decimal(n as nat);
            &&& status_pieces(changed, false) == seq![(Some(Hue::Yellow), seq!['~'] + number)]
            &&& status_pieces(added, false) == seq![(Some(Hue::Green), seq!['+'] + number)]
            &&& status_pieces(deleted, false) == seq![(Some(Hue::Red), seq!['-'] + number)]
            &&& status_pieces(changed, true) == seq![
                (Some(Hue::Yellow), seq!['\u{ea73}', ' '] + number),
            ]
            &&& status_pieces(added, true) == seq![
                (Some(Hue::Green), seq!['\u{f067}', ' '] + number),
            ]
            &&& status_pieces(deleted, true) == seq![
                (Some(Hue::Red), seq!['\u{f068}', ' '] + number),
            ]
        }),
{
    let changed = StatusCounts { added: 0, modified: n, deleted: 0 };
    let added = StatusCounts { added: n, modified: 0, deleted: 0 };
    let deleted = StatusCounts { added: 0, modified: 0, deleted: n };
    let number = text::decimal(n as nat);
    assert(count_pieces(changed, false) =~= seq![(Some(Hue::Yellow), seq!['~'] + number)]);
    assert(count_pieces(added, false) =~= seq![(Some(Hue::Green), seq!['+'] + number)]);
    assert(count_pieces(deleted, false) =~= seq![(Some(Hue::Red), seq!['-'] + number)]);
    assert(count_pieces(changed, true) =~= seq![
        (Some(Hue::Yellow), seq!['\u{ea73}', ' '] + number),
    ]);
    assert(count_pieces(added, true) =~= seq![(Some(Hue::Green), seq!['\u{f067}', ' '] + number)]);
    assert(count_pieces(deleted, true) =~= seq![(Some(Hue::Red), seq!['\u{f068}', ' '] + number)]);
}

/// Several kinds of change stand side by side with a space between them: first
/// what was changed, then what was added, then what was deleted.
pub proof fn law_kinds_of_change_stand_side_by_side(
    added: usize,
    modified: usize,
    deleted: usize,
    nerd_font: bool,
)
    ensures
        ({
            let all = status_pieces(Some(StatusCounts { added, modified, deleted }), nerd_font);
            let changed = status_pieces(
                Some(StatusCounts { added: 0, modified, deleted: 0 }),
                nerd_font,
            );
            let rest = status_pieces(Some(StatusCounts { added, modified: 0, deleted }), nerd_font);
            let fresh = status_pieces(
                Some(StatusCounts { added, modified: 0, deleted: 0 }),
                nerd_font,
            );
            let gone = status_pieces(
                Some(StatusCounts { added: 0, modified: 0, deleted }),
                nerd_font,
            );
            let gap = seq![(None::<Hue>, seq![' '])];
            &&& all == if modified == 0 || (added == 0 && deleted == 0) {
                changed + rest
            } else {
                changed + gap + rest
            }
            &&& rest == if added == 0 || deleted == 0 {
                fresh + gone
            } else {
                fresh + gap + gone
            }
        }),
        status_pieces(None, nerd_font) == Seq::<(Option<Hue>, Seq<char>)>::empty(),
{
    reveal_strlit(" ");
    assert(" "@ =~= seq![' ']);
    reveal_with_fuel(spaced, 4);
    let y = count_piece(Hue::Yellow, count_prefix(nerd_font, '\u{ea73}', '~'), modified as nat);
    let g = count_piece(Hue::Green, count_prefix(nerd_font, '\u{f067}', '+'), added as nat);
    let r = count_piece(Hue::Red, count_prefix(nerd_font, '\u{f068}', '-'), deleted as nat);
    let none: Seq<(Option<Hue>, Seq<char>)> = seq![];
    let gap = seq![(None::<Hue>, seq![' '])];
    assert(count_pieces(StatusCounts { added, modified, deleted }, nerd_font) =~= y + g + r);
    assert(count_pieces(StatusCounts { added: 0, modified, deleted: 0 }, nerd_font) =~= y);
    assert(count_pieces(StatusCounts { added, modified: 0, deleted }, nerd_font) =~= g + r);
    assert(count_pieces(StatusCounts { added, modified: 0, deleted: 0 }, nerd_font) =~= g);
    assert(count_pieces(StatusCounts { added: 0, modified: 0, deleted }, nerd_font) =~= r);
    assert(spaced(y) == y && spaced(g) == g && spaced(r) == r);
    if added == 0 || deleted == 0 {
        assert(g + r =~= if added == 0 {
            r
        } else {
            g
        });
        assert(spaced(g + r) =~= g + r);
    } else {
        assert((g + r).drop_last() =~= g);
        assert(spaced(g + r) =~= g + gap + r);
    }
    if modified == 0 {
        assert(y + g + r =~= g + r);
        assert(spaced(y) + spaced(g + r) =~= spaced(g + r));
    } else if added == 0 && deleted == 0 {
        assert(y + g + r =~= y);
        assert(spaced(y) + spaced(g + r) =~= y);
    } else if added == 0 || deleted == 0 {
        assert((y + g + r).drop_last() =~= y);
        assert(spaced(y + g + r) =~= y + gap + (g + r));
    } else {
        assert((y + g + r).drop_last() =~= y + g);
        assert((y + g).drop_last() =~= y);
        assert(spaced(y + g + r) =~= y + gap + (g + gap + r));
    }
}

/// A branch is shown by its name, which in a patched font stands behind an icon
/// and a space.
pub proof fn law_branch_is_shown_by_its_name(branch: Seq<char>)
    ensures
        branch_text(branch, false) == branch,
        branch_text(branch, true) == seq!['\u{e725}', ' '] + branch,
{
}

} // verus!
