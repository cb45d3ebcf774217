use vstd::prelude::*;

use crate::exn::new_frame;
use crate::frame::{Frame, FrameView};
use crate::location::LocationView;

verus! {

/// The character of a decimal digit `d < 10`.
pub open spec fn digit_char(d: nat) -> char {
    ('0' as nat + d) as char
}

/// The decimal notation of `n`, without leading zeros.
pub open spec fn decimal(n: nat) -> Seq<char>
    decreases n,
{
    if n < 10 {
        seq![digit_char(n)]
    } else {
        decimal(n / 10).push(digit_char(n % 10))
    }
}

/// The first line of a frame's rendering: its message and its location,
/// as in `message, at file:line:column`.
pub open spec fn header(f: FrameView) -> Seq<char> {
    f.message + seq![',', ' ', 'a', 't', ' '] + f.location.file + seq![':'] + decimal(
        f.location.line as nat,
    ) + seq![':'] + decimal(f.location.column as nat)
}

/// The depth counter one level further down (it stops at its largest value,
/// which only matters in that it is not zero).
pub open spec fn next_level(level: usize) -> usize {
    if level == usize::MAX {
        level
    } else {
        (level + 1) as usize
    }
}

/// Whether the children of `f`, at depth `level`, are drawn as one straight
/// line: at the top, when `f` has one child which itself has one child.
pub open spec fn draws_linear(f: FrameView, level: usize) -> bool {
    level == 0 && f.children.len() == 1 && f.children[0].children.len() == 1
}

/// The connector drawn in front of child `i` of `f`.
pub open spec fn connector(f: FrameView, i: int, level: usize) -> Seq<char> {
    if i != f.children.len() - 1 || draws_linear(f, level) {
        seq!['|', '-', '-', ' ']
    } else {
        seq!['`', '-', '-', ' ']
    }
}

/// The depth at which child `i` of `f` is drawn.
pub open spec fn child_level(f: FrameView, i: int, level: usize) -> usize {
    if draws_linear(f, level) {
        0
    } else {
        next_level(level)
    }
}

/// The prefix with which the lines below child `i` of `f` are drawn.
pub open spec fn child_prefix(f: FrameView, i: int, level: usize, prefix: Seq<char>) -> Seq<char> {
    if draws_linear(f, level) {
        prefix
    } else if i < f.children.len() - 1 {
        prefix + seq!['|', ' ', ' ', ' ']
    } else {
        prefix + seq![' ', ' ', ' ', ' ']
    }
}

/// The rendering of the children of `f` from index `i` on, `f` being drawn
/// at depth `level` with `prefix` in front of its lines.
pub open spec fn render_children(f: FrameView, i: int, level: usize, prefix: Seq<char>) -> Seq<
    char,
>
    decreases f, f.children.len() - i,
{
    if i < 0 || i >= f.children.len() {
        seq![]
    } else {
        let child = f.children[i];
        seq!['\n'] + prefix + connector(f, i, level) + header(child) + render_children(
            child,
            0,
            child_level(f, i, level),
            child_prefix(f, i, level, prefix),
        ) + render_children(f, i + 1, level, prefix)
    }
}

/// The rendering of the tree below `f`: its header, then each child on a
/// line of its own, drawn as a tree.
pub open spec fn render(f: FrameView, level: usize, prefix: Seq<char>) -> Seq<char> {
    header(f) + render_children(f, 0, level, prefix)
}

/// The text that the lines `lines` add below a top line: each line starts
/// on a new row with its lead (the bars, spaces and connector in front of
/// it), followed by the header of its frame.
pub open spec fn lines_text(lines: Seq<(Seq<char>, FrameView)>) -> Seq<char>
    decreases lines.len(),
{
    if lines.len() == 0 {
        seq![]
    } else {
        seq!['\n'] + lines[0].0 + header(lines[0].1) + lines_text(lines.drop_first())
    }
}

/// The lines drawn below `f` for its children from index `i` on, in pre-order:
/// each child with its lead, then the lines of the child's own children.
pub open spec fn child_lines(f: FrameView, i: int, level: usize, prefix: Seq<char>) -> Seq<
    (Seq<char>, FrameView),
>
    decreases f, f.children.len() - i,
{
    if i < 0 || i >= f.children.len() {
        seq![]
    } else {
        let child = f.children[i];
        seq![(prefix + connector(f, i, level), child)] + child_lines(
            child,
            0,
            child_level(f, i, level),
            child_prefix(f, i, level, prefix),
        ) + child_lines(f, i + 1, level, prefix)
    }
}

/// The descendants of `f` through its children from index `i` on, in
/// pre-order: each child, then its own descendants.
pub open spec fn descendants(f: FrameView, i: int) -> Seq<FrameView>
    decreases f, f.children.len() - i,
{
    if i < 0 || i >= f.children.len() {
        seq![]
    } else {
        let child = f.children[i];
        seq![child] + descendants(child, 0) + descendants(f, i + 1)
    }
}

/// A rule: a run of vertical bars and spaces, which is all a prefix holds.
pub open spec fn is_rule(s: Seq<char>) -> bool {
    forall|k: int| 0 <= k < s.len() ==> s[k] == '|' || s[k] == ' '
}

/// Whether `s` begins with `p`.
pub open spec fn starts_with(s: Seq<char>, p: Seq<char>) -> bool {
    p.len() <= s.len() && s.take(p.len() as int) == p
}

/// A lead: a rule followed by a connector, `|-- ` or `` `-- ``.
pub open spec fn is_lead(s: Seq<char>) -> bool {
    &&& s.len() >= 4
    &&& is_rule(s.take(s.len() - 4))
    &&& (s.skip(s.len() - 4) == seq!['|', '-', '-', ' '] || s.skip(s.len() - 4) == seq![
        '`',
        '-',
        '-',
        ' ',
    ])
}

proof fn lemma_lines_text_concat(a: Seq<(Seq<char>, FrameView)>, b: Seq<(Seq<char>, FrameView)>)
    ensures
        lines_text(a + b) == lines_text(a) + lines_text(b),
    decreases a.len(),
{
    if a.len() == 0 {
        assert(a + b =~= b);
        assert(lines_text(a) + lines_text(b) =~= lines_text(b));
    } else {
        lemma_lines_text_concat(a.drop_first(), b);
        assert((a + b).drop_first() =~= a.drop_first() + b);
        assert(lines_text(a + b) =~= lines_text(a) + lines_text(b));
    }
}

proof fn lemma_children_as_lines(f: FrameView, i: int, level: usize, prefix: Seq<char>)
    ensures
        render_children(f, i, level, prefix) == lines_text(child_lines(f, i, level, prefix)),
        child_lines(f, i, level, prefix).map_values(|l: (Seq<char>, FrameView)| l.1)
            == descendants(f, i),
        is_rule(prefix) ==> forall|k: int|
            0 <= k < child_lines(f, i, level, prefix).len() ==> is_lead(
                #[trigger] child_lines(f, i, level, prefix)[k].0,
            ),
        forall|k: int|
            0 <= k < child_lines(f, i, level, prefix).len() ==> starts_with(
                #[trigger] child_lines(f, i, level, prefix)[k].0,
                prefix,
            ),
    decreases f, f.children.len() - i,
{
    let ls = child_lines(f, i, level, prefix);
    if i < 0 || i >= f.children.len() {
        assert(ls.map_values(|l: (Seq<char>, FrameView)| l.1) =~= descendants(f, i));
    } else {
        let child = f.children[i];
        let cl = child_level(f, i, level);
        let cp = child_prefix(f, i, level, prefix);
        assert(decreases_to!(f => f.children));
        lemma_children_as_lines(child, 0, cl, cp);
        lemma_children_as_lines(f, i + 1, level, prefix);
        let head = seq![(prefix + connector(f, i, level), child)];
        let mid = child_lines(child, 0, cl, cp);
        let rest = child_lines(f, i + 1, level, prefix);
        lemma_lines_text_concat(head, mid);
        lemma_lines_text_concat(head + mid, rest);
        assert(lines_text(head) =~= seq!['\n'] + prefix + connector(f, i, level) + header(child)) by {
            assert(head.drop_first() =~= Seq::<(Seq<char>, FrameView)>::empty());
            assert(lines_text(head.drop_first()) =~= Seq::<char>::empty());
        }
        assert(render_children(f, i, level, prefix) =~= lines_text(ls));
        assert(ls.map_values(|l: (Seq<char>, FrameView)| l.1) =~= seq![child]
            + mid.map_values(|l: (Seq<char>, FrameView)| l.1) + rest.map_values(
            |l: (Seq<char>, FrameView)| l.1,
        ));
        assert(cp.take(prefix.len() as int) =~= prefix);
        assert(starts_with(cp, prefix));
        assert forall|k: int| 0 <= k < ls.len() implies starts_with(#[trigger] ls[k].0, prefix) by {
            if k == 0 {
                assert(ls[k].0.take(prefix.len() as int) =~= prefix);
            } else if k < 1 + mid.len() {
                assert(ls[k] == mid[k - 1]);
                assert(ls[k].0.take(prefix.len() as int) =~= ls[k].0.take(cp.len() as int).take(
                    prefix.len() as int,
                ));
            } else {
                assert(ls[k] == rest[k - 1 - mid.len()]);
            }
        }
        if is_rule(prefix) {
            assert(is_rule(cp));
            let lead = prefix + connector(f, i, level);
            assert(lead.take(lead.len() - 4) =~= prefix);
            assert(lead.skip(lead.len() - 4) =~= connector(f, i, level));
            assert forall|k: int| 0 <= k < ls.len() implies is_lead(#[trigger] ls[k].0) by {
                if k == 0 {
                    assert(ls[k].0 == lead);
                } else if k < 1 + mid.len() {
                    assert(ls[k] == mid[k - 1]);
                } else {
                    assert(ls[k] == rest[k - 1 - mid.len()]);
                }
            }
        }
    }
}

/// The rendering of a tree, stated line by line: the header of the top
/// frame, then one line per descendant, in pre-order, each made of its lead
/// and its header; drawn below a prefix of bars and spaces, at any depth,
/// every lead starts with that prefix and is a rule of bars and spaces (the
/// prefix, then what the ancestors add to it) followed by a connector.
pub proof fn law_render_lines(f: FrameView, level: usize, prefix: Seq<char>)
    requires
        is_rule(prefix),
    ensures
        render(f, level, prefix) == header(f) + lines_text(child_lines(f, 0, level, prefix)),
        child_lines(f, 0, level, prefix).map_values(|l: (Seq<char>, FrameView)| l.1)
            == descendants(f, 0),
        forall|k: int|
            0 <= k < child_lines(f, 0, level, prefix).len() ==> is_lead(
                #[trigger] child_lines(f, 0, level, prefix)[k].0,
            ),
        forall|k: int|
            0 <= k < child_lines(f, 0, level, prefix).len() ==> starts_with(
                #[trigger] child_lines(f, 0, level, prefix)[k].0,
                prefix,
            ),
{
    lemma_children_as_lines(f, 0, level, prefix);
}

/// Whether `f` is a chain: every frame in it has at most one child.
pub open spec fn is_chain(f: FrameView) -> bool
    decreases f,
{
    f.children.len() == 0 || (f.children.len() == 1 && is_chain(f.children[0]))
}

/// The lines that a chain draws below its top frame: every frame but the
/// last behind `|-- `, the last behind `` `-- ``, none of them indented.
pub open spec fn flat_lines(f: FrameView) -> Seq<char>
    decreases f,
{
    if f.children.len() == 0 {
        seq![]
    } else {
        let c = f.children[0];
        if c.children.len() == 0 {
            seq!['\n', '`', '-', '-', ' '] + header(c)
        } else {
            seq!['\n', '|', '-', '-', ' '] + header(c) + flat_lines(c)
        }
    }
}

/// A frame without children renders as its header alone.
pub proof fn lemma_render_leaf(f: FrameView, level: usize, prefix: Seq<char>)
    requires
        f.children.len() == 0,
    ensures
        render(f, level, prefix) == header(f),
{
    assert(render(f, level, prefix) =~= header(f));
}

/// A chain renders flat, whatever its length and wherever each of its
/// frames was created: one line per frame, none indented.
pub proof fn law_linear_render(f: FrameView)
    requires
        is_chain(f),
    ensures
        render(f, 0, seq![]) == header(f) + flat_lines(f),
    decreases f,
{
    let e: Seq<char> = seq![];
    if f.children.len() == 0 {
        assert(render(f, 0, e) =~= header(f) + flat_lines(f));
    } else {
        let c = f.children[0];
        assert(f.children.len() == 1);
        assert(is_chain(c));
        assert(decreases_to!(f => f.children));
        assert(render_children(f, 1, 0, e) =~= Seq::<char>::empty());
        if c.children.len() == 0 {
            assert(render_children(c, 0, next_level(0), seq![' ', ' ', ' ', ' ']) =~= Seq::<
                char,
            >::empty());
            assert(render_children(f, 0, 0, e) =~= seq!['\n', '`', '-', '-', ' '] + header(c));
        } else {
            assert(c.children.len() == 1);
            assert(draws_linear(f, 0));
            law_linear_render(c);
            assert(render_children(f, 0, 0, e) =~= seq!['\n', '|', '-', '-', ' '] + render(c, 0, e));
        }
        assert(render(f, 0, e) =~= header(f) + flat_lines(f));
    }
}

/// An exception made by [`crate::exn::Exn::new`] is a chain.
pub proof fn lemma_new_frame_is_chain(message: Seq<char>, sources: Seq<Seq<char>>, location: LocationView)
    ensures
        is_chain(new_frame(message, sources, location)),
    decreases sources.len(),
{
    if sources.len() > 0 {
        lemma_new_frame_is_chain(sources[0], sources.drop_first(), location);
    }
}

/// Whether `c` is one of the ten decimal digits.
pub open spec fn is_digit(c: char) -> bool {
    '0' <= c && c <= '9'
}

/// The number that a string of decimal digits stands for, read in base 10:
/// each digit's value times ten to the power of its place from the right.
pub open spec fn digits_value(s: Seq<char>) -> int
    decreases s.len(),
{
    if s.len() == 0 {
        0
    } else {
        digits_value(s.drop_last()) * 10 + (s.last() as int - '0' as int)
    }
}

/// The decimal notation of a number is made of digits, reads back as that
/// number in base 10, and has no leading zero (unless the number is zero).
pub proof fn law_decimal_reads_back(n: nat)
    ensures
        decimal(n).len() >= 1,
        forall|k: int| 0 <= k < decimal(n).len() ==> is_digit(#[trigger] decimal(n)[k]),
        digits_value(decimal(n)) == n,
        decimal(n)[0] == '0' ==> n == 0,
    decreases n,
{
    if n < 10 {
        assert(decimal(n) == seq![digit_char(n)]);
        assert(digit_char(n) as int == '0' as int + n);
        assert(decimal(n).drop_last() =~= Seq::<char>::empty());
        assert(digits_value(decimal(n)) == digits_value(Seq::<char>::empty()) * 10 + (decimal(
            n,
        ).last() as int - '0' as int));
        assert(digits_value(decimal(n)) == n);
    } else {
        law_decimal_reads_back(n / 10);
        let d = decimal(n);
        let high = decimal(n / 10);
        assert(d == high.push(digit_char(n % 10)));
        assert(digit_char(n % 10) as int == '0' as int + n % 10);
        assert(d.drop_last() =~= high);
        assert(digits_value(d) == digits_value(high) * 10 + (n % 10) as int);
        assert((n / 10) * 10 + n % 10 == n);
        assert(digits_value(d) == n);
        assert(d[0] == high[0]);
        assert forall|k: int| 0 <= k < d.len() implies is_digit(#[trigger] d[k]) by {
            if k < high.len() {
                assert(d[k] == high[k]);
            }
        }
    }
}

/// The first line of a frame's rendering is its message, `, at `, its file,
/// and its line and column in decimal, separated by colons.
pub proof fn law_header(f: FrameView)
    ensures
        header(f) == f.message + seq![',', ' ', 'a', 't', ' '] + f.location.file + seq![':']
            + decimal(f.location.line as nat) + seq![':'] + decimal(f.location.column as nat),
{
}

/// Below the top, the depth at which a tree is drawn makes no difference:
/// any two nonzero depths draw it alike.
pub proof fn law_render_depth_below_top(
    f: FrameView,
    level1: usize,
    level2: usize,
    prefix: Seq<char>,
)
    requires
        level1 != 0,
        level2 != 0,
    ensures
        render(f, level1, prefix) == render(f, level2, prefix),
{
    lemma_children_depth(f, 0, level1, level2, prefix);
}

proof fn lemma_children_depth(f: FrameView, i: int, level1: usize, level2: usize, prefix: Seq<char>)
    requires
        level1 != 0,
        level2 != 0,
    ensures
        render_children(f, i, level1, prefix) == render_children(f, i, level2, prefix),
    decreases f, f.children.len() - i,
{
    if 0 <= i < f.children.len() {
        let c = f.children[i];
        assert(decreases_to!(f => f.children));
        assert(next_level(level1) != 0 && next_level(level2) != 0);
        lemma_children_depth(c, 0, next_level(level1), next_level(level2), child_prefix(f, i, level1, prefix));
        lemma_children_depth(f, i + 1, level1, level2, prefix);
    }
}

/// The lines drawn for the children of `f` when they are not drawn flat:
/// every child but the last behind `|-- `, with `|   ` added to the prefix
/// of the lines below it, the last behind `` `-- `` with four spaces added;
/// each child drawn below the top.
pub open spec fn indented_children(f: FrameView, prefix: Seq<char>) -> Seq<Seq<char>> {
    Seq::new(
        f.children.len(),
        |i: int|
            if i < f.children.len() - 1 {
                seq!['\n'] + prefix + seq!['|', '-', '-', ' '] + render(
                    f.children[i],
                    1,
                    prefix + seq!['|', ' ', ' ', ' '],
                )
            } else {
                seq!['\n'] + prefix + seq!['`', '-', '-', ' '] + render(
                    f.children[i],
                    1,
                    prefix + seq![' ', ' ', ' ', ' '],
                )
            },
    )
}

proof fn lemma_indented_from(f: FrameView, i: int, level: usize, prefix: Seq<char>)
    requires
        0 <= i <= f.children.len(),
        !(level == 0 && f.children.len() == 1 && f.children[0].children.len() == 1),
    ensures
        render_children(f, i, level, prefix) == indented_children(f, prefix).skip(i).flatten(),
    decreases f.children.len() - i,
{
    let parts = indented_children(f, prefix);
    if i == f.children.len() {
        assert(parts.skip(i) =~= Seq::<Seq<char>>::empty());
    } else {
        lemma_indented_from(f, i + 1, level, prefix);
        let c = f.children[i];
        let cp = child_prefix(f, i, level, prefix);
        assert(!draws_linear(f, level));
        assert(next_level(level) != 0);
        law_render_depth_below_top(c, next_level(level), 1, cp);
        assert(parts.skip(i).drop_first() =~= parts.skip(i + 1));
        assert(parts.skip(i).first() == parts[i]);
        if i < f.children.len() - 1 {
            assert(cp =~= prefix + seq!['|', ' ', ' ', ' ']);
        } else {
            assert(cp =~= prefix + seq![' ', ' ', ' ', ' ']);
        }
        assert(render_children(f, i, level, prefix) =~= parts[i] + parts.skip(i + 1).flatten());
    }
}

/// How a tree is drawn, one level at a time. Unless `f` is at the top with
/// one child that itself has one child, each child goes on a line of its
/// own behind `|-- ` (or `` `-- `` for the last one), and the lines below it
/// are indented by `|   ` (or four spaces below the last child), drawn
/// below the top. At the top, a child that continues a single chain is
/// drawn flat instead: behind `|-- `, with the same prefix, at the top.
pub proof fn law_render_unfolds(f: FrameView, level: usize, prefix: Seq<char>)
    ensures
        !(level == 0 && f.children.len() == 1 && f.children[0].children.len() == 1) ==> render(
            f,
            level,
            prefix,
        ) == header(f) + indented_children(f, prefix).flatten(),
        (level == 0 && f.children.len() == 1 && f.children[0].children.len() == 1) ==> render(
            f,
            level,
            prefix,
        ) == header(f) + seq!['\n'] + prefix + seq!['|', '-', '-', ' '] + render(
            f.children[0],
            0,
            prefix,
        ),
{
    if level == 0 && f.children.len() == 1 && f.children[0].children.len() == 1 {
        assert(draws_linear(f, level));
        assert(render_children(f, 1, level, prefix) =~= Seq::<char>::empty());
        assert(render(f, level, prefix) =~= header(f) + seq!['\n'] + prefix + seq![
            '|',
            '-',
            '-',
            ' ',
        ] + render(f.children[0], 0, prefix));
    } else {
        lemma_indented_from(f, 0, level, prefix);
        assert(indented_children(f, prefix).skip(0) =~= indented_children(f, prefix));
    }
}

/// The one-character string of the decimal digit `d`.
fn digit_str(d: u32) -> (r: &'static str)
    requires
        d < 10,
    ensures
        r@ == seq![digit_char(d as nat)],
{
    proof {
        reveal_strlit("0");
        reveal_strlit("1");
        reveal_strlit("2");
        reveal_strlit("3");
        reveal_strlit("4");
        reveal_strlit("5");
        reveal_strlit("6");
        reveal_strlit("7");
        reveal_strlit("8");
        reveal_strlit("9");
    }
    if d == 0 {
        "0"
    } else if d == 1 {
        "1"
    } else if d == 2 {
        "2"
    } else if d == 3 {
        "3"
    } else if d == 4 {
        "4"
    } else if d == 5 {
        "5"
    } else if d == 6 {
        "6"
    } else if d == 7 {
        "7"
    } else if d == 8 {
        "8"
    } else {
        "9"
    }
}

/// Appends the decimal notation of `n` to `out`.
pub fn write_decimal(out: &mut String, n: u32)
    ensures
        final(out)@ == old(out)@ + decimal(n as nat),
    decreases n,
{
    if n >= 10 {
        write_decimal(out, n / 10);
    }
    out.append(digit_str(n % 10));
    assert(out@ =~= old(out)@ + decimal(n as nat));
}

/// Appends the header of `frame` to `out`.
fn write_header(out: &mut String, frame: &Frame)
    ensures
        final(out)@ == old(out)@ + header(frame@),
{
    proof {
        reveal_strlit(", at ");
        reveal_strlit(":");
    }
    let location = frame.location();
    out.append(frame.error());
    out.append(", at ");
    out.append(location.file());
    out.append(":");
    write_decimal(out, location.line());
    out.append(":");
    write_decimal(out, location.column());
    assert(out@ =~= old(out)@ + header(frame@));
}

/// Appends the rendering of the tree below `frame` to `out`: `frame` is
/// drawn at depth `level`, with `prefix` in front of each line below it.
pub fn write_exn(out: &mut String, frame: &Frame, level: usize, prefix: &str)
    ensures
        final(out)@ == old(out)@ + render(frame@, level, prefix@),
    decreases frame@,
{
    write_header(out, frame);
    let ghost f = frame@;
    let children = frame.children();
    let children_len = children.len();
    let mut i: usize = 0;
    while i < children_len
        invariant
            0 <= i <= children_len,
            children_len == children@.len(),
            f == frame@,
            crate::frame::views(children@) == f.children,
            out@ + render_children(f, i as int, level, prefix@) == old(out)@ + render(f, level, prefix@),
        decreases children_len - i,
    {
        proof {
            reveal_strlit("\n");
            reveal_strlit("|-- ");
            reveal_strlit("`-- ");
            reveal_strlit("|   ");
            reveal_strlit("    ");
        }
        let child = &children[i];
        let ghost before = out@;
        let ghost drawn = render(
            f.children[i as int],
            child_level(f, i as int, level),
            child_prefix(f, i as int, level, prefix@),
        );
        assert(child@ == f.children[i as int]);
        let child_child_len = child.children().len();
        let is_linear = level == 0 && children_len == 1 && child_child_len == 1;
        out.append("\n");
        out.append(prefix);
        if i != children_len - 1 || is_linear {
            out.append("|-- ");
        } else {
            out.append("`-- ");
        }
        let ghost mid = out@;
        assert(mid =~= before + seq!['\n'] + prefix@ + connector(f, i as int, level));
        assert(decreases_to!(f => f.children));
        if is_linear {
            write_exn(out, child, 0, prefix);
        } else if i < children_len - 1 {
            let mut deeper = String::from_str(prefix);
            deeper.append("|   ");
            assert(deeper@ == child_prefix(f, i as int, level, prefix@));
            write_exn(out, child, level.saturating_add(1), deeper.as_str());
        } else {
            let mut deeper = String::from_str(prefix);
            deeper.append("    ");
            assert(deeper@ == child_prefix(f, i as int, level, prefix@));
            write_exn(out, child, level.saturating_add(1), deeper.as_str());
        }
        assert(out@ == mid + drawn);
        assert(render_children(f, i as int, level, prefix@) =~= seq!['\n'] + prefix@ + connector(
            f,
            i as int,
            level,
        ) + drawn + render_children(f, i + 1, level, prefix@));
        i = i + 1;
    }
}

impl Frame {
    /// The rendering of the tree below this frame, as its `Debug` output.
    pub fn to_debug_string(&self) -> (r: String)
        ensures
            r@ == render(self@, 0, seq![]),
    {
        let mut out = String::new();
        proof {
            reveal_strlit("");
        }
        assert(""@ =~= Seq::<char>::empty());
        write_exn(&mut out, self, 0, "");
        assert(out@ =~= render(self@, 0, seq![]));
        out
    }
}

} // verus!
