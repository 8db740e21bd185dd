//! Deriving display blocks from a turn's raw text.
//!
//! The renderer is a pure, total function over the text: it splits the text
//! into lines and classifies each line as a heading, a bullet item, a line of
//! a fenced code block, or a paragraph. It is safe on partial, mid-stream
//! text: an unterminated code fence simply renders the remaining lines as
//! code.

use vstd::prelude::*;

verus! {

/// A display-ready unit derived purely from a turn's text; never persisted.
pub enum RenderBlock {
    Heading { level: u8, text: String },
    Bullet { text: String },
    CodeLine { text: String },
    Paragraph { text: String },
}

/// The mathematical form of a render block.
pub enum BlockV {
    Heading { level: int, text: Seq<char> },
    Bullet { text: Seq<char> },
    CodeLine { text: Seq<char> },
    Paragraph { text: Seq<char> },
}

impl View for RenderBlock {
    type V = BlockV;

    open spec fn view(&self) -> BlockV {
        match self {
            RenderBlock::Heading { level, text } => BlockV::Heading {
                level: *level as int,
                text: text@,
            },
            RenderBlock::Bullet { text } => BlockV::Bullet { text: text@ },
            RenderBlock::CodeLine { text } => BlockV::CodeLine { text: text@ },
            RenderBlock::Paragraph { text } => BlockV::Paragraph { text: text@ },
        }
    }
}

impl DeepView for RenderBlock {
    type V = BlockV;

    open spec fn deep_view(&self) -> BlockV {
        self.view()
    }
}

/// Index of the first newline in `s`, or `s.len()` if there is none.
pub open spec fn first_nl(s: Seq<char>) -> nat
    decreases s.len(),
{
    if s.len() == 0 {
        0
    } else if s[0] == '\n' {
        0
    } else {
        1 + first_nl(s.drop_first())
    }
}

/// `first_nl` names the first newline: if no character before `m` is a
/// newline and `m` is the end or a newline, the first newline is at `m`.
pub proof fn lemma_first_nl_at(s: Seq<char>, m: int)
    requires
        0 <= m <= s.len(),
        forall|k: int| 0 <= k < m ==> s[k] != '\n',
        m == s.len() || s[m] == '\n',
    ensures
        first_nl(s) == m,
    decreases s.len(),
{
    if s.len() == 0 {
    } else if s[0] == '\n' {
    } else {
        lemma_first_nl_at(s.drop_first(), m - 1);
    }
}

/// The text of `s`, split at newlines. The newlines themselves belong to no
/// line; a trailing newline yields a final empty line.
pub open spec fn split_lines(s: Seq<char>) -> Seq<Seq<char>>
    decreases s.len(),
{
    let n = first_nl(s);
    if n >= s.len() {
        seq![s]
    } else {
        seq![s.take(n as int)] + split_lines(s.skip(n as int + 1))
    }
}

/// A line of spaces only (or empty).
pub open spec fn line_is_blank(l: Seq<char>) -> bool {
    forall|k: int| 0 <= k < l.len() ==> l[k] == ' '
}

/// A code-fence marker line.
pub open spec fn line_is_fence(l: Seq<char>) -> bool {
    l.len() >= 3 && l[0] == '`' && l[1] == '`' && l[2] == '`'
}

/// Number of leading `#` characters.
pub open spec fn hash_prefix_len(l: Seq<char>) -> nat
    decreases l.len(),
{
    if l.len() == 0 {
        0
    } else if l[0] != '#' {
        0
    } else {
        1 + hash_prefix_len(l.drop_first())
    }
}

/// `hash_prefix_len` names the longest `#` prefix.
pub proof fn lemma_hash_prefix_at(l: Seq<char>, m: int)
    requires
        0 <= m <= l.len(),
        forall|k: int| 0 <= k < m ==> l[k] == '#',
        m == l.len() || l[m] != '#',
    ensures
        hash_prefix_len(l) == m,
    decreases l.len(),
{
    if l.len() == 0 {
    } else if l[0] != '#' {
    } else {
        assert(l[0] == '#');
        lemma_hash_prefix_at(l.drop_first(), m - 1);
    }
}

/// The heading block a `#`-led line denotes: the level is the number of
/// leading hashes, capped at six; one space after the hashes is dropped.
pub open spec fn heading_of(l: Seq<char>) -> BlockV {
    let hp = hash_prefix_len(l);
    let level: int = if hp > 6 {
        6
    } else {
        hp as int
    };
    let start: int = if hp < l.len() && l[hp as int] == ' ' {
        hp as int + 1
    } else {
        hp as int
    };
    BlockV::Heading { level, text: l.skip(start) }
}

/// The block a single line denotes outside a code fence.
pub open spec fn block_of_line(l: Seq<char>) -> BlockV {
    if l.len() >= 1 && l[0] == '#' {
        heading_of(l)
    } else if l.len() >= 2 && l[0] == '-' && l[1] == ' ' {
        BlockV::Bullet { text: l.skip(2) }
    } else {
        BlockV::Paragraph { text: l }
    }
}

/// The blocks a sequence of lines denotes. `in_code` says whether the first
/// line still sits inside an open code fence.
pub open spec fn render_lines(ls: Seq<Seq<char>>, in_code: bool) -> Seq<BlockV>
    decreases ls.len(),
{
    if ls.len() == 0 {
        Seq::empty()
    } else {
        let l = ls[0];
        let rest = ls.drop_first();
        if in_code {
            if line_is_fence(l) {
                render_lines(rest, false)
            } else {
                seq![BlockV::CodeLine { text: l }] + render_lines(rest, true)
            }
        } else {
            if line_is_fence(l) {
                render_lines(rest, true)
            } else if line_is_blank(l) {
                render_lines(rest, false)
            } else {
                seq![block_of_line(l)] + render_lines(rest, false)
            }
        }
    }
}

/// The blocks a turn's text denotes: split into lines, start outside a fence.
pub open spec fn rendered(text: Seq<char>) -> Seq<BlockV> {
    render_lines(split_lines(text), false)
}

/// Splits `v`, from index `i` on, into its lines.
fn split_from(v: &Vec<char>, i: usize) -> (r: Vec<Vec<char>>)
    requires
        i <= v@.len(),
    ensures
        r.deep_view() == split_lines(v@.skip(i as int)),
    decreases v@.len() - i,
{
    let ghost s = v@.skip(i as int);
    let mut j: usize = i;
    while j < v.len() && v[j] != '\n'
        invariant
            i <= j <= v@.len(),
            s == v@.skip(i as int),
            forall|k: int| i <= k < j ==> v@[k] != '\n',
        decreases v@.len() - j,
    {
        j = j + 1;
    }
    proof {
        assert forall|k: int| 0 <= k < j - i implies s[k] != '\n' by {
            assert(s[k] == v@[i + k]);
        }
        if j < v.len() {
            assert(s[j - i] == v@[j as int]);
        }
        lemma_first_nl_at(s, j - i);
    }
    let mut line: Vec<char> = Vec::new();
    let mut k: usize = i;
    while k < j
        invariant
            i <= k <= j <= v@.len(),
            line@ == v@.subrange(i as int, k as int),
        decreases j - k,
    {
        line.push(v[k]);
        k = k + 1;
        assert(line@ =~= v@.subrange(i as int, k as int));
    }
    let ghost lv = line@;
    let mut r: Vec<Vec<char>> = Vec::new();
    r.push(line);
    if j == v.len() {
        proof {
            assert(lv =~= s);
            assert(first_nl(s) >= s.len());
            assert(r.deep_view() =~~= seq![s]);
        }
        r
    } else {
        let mut rest = split_from(v, j + 1);
        let ghost restd = rest.deep_view();
        let ghost restv = rest@;
        r.append(&mut rest);
        proof {
            assert(lv =~= s.take((j - i) as int));
            assert(v@.skip(j as int + 1) =~= s.skip(j - i + 1));
            assert(restd == split_lines(s.skip(j - i + 1)));
            assert forall|q: int| 0 <= q < r.deep_view().len() implies r.deep_view()[q] == (seq![
                lv,
            ] + restd)[q] by {
                if q == 0 {
                    assert(r@[0].deep_view() =~= lv);
                } else {
                    assert(r@[q] == restv[q - 1]);
                    assert(restd[q - 1] == restv[q - 1].deep_view());
                }
            }
            assert(r.deep_view() =~~= seq![s.take((j - i) as int)] + split_lines(
                s.skip(j - i + 1),
            ));
        }
        r
    }
}

/// Whether the line holds nothing but spaces.
fn is_blank(l: &Vec<char>) -> (r: bool)
    ensures
        r == line_is_blank(l@),
{
    let mut k: usize = 0;
    while k < l.len()
        invariant
            k <= l@.len(),
            forall|j: int| 0 <= j < k ==> l@[j] == ' ',
        decreases l@.len() - k,
    {
        if l[k] != ' ' {
            return false;
        }
        k = k + 1;
    }
    true
}

/// Whether the line is a code-fence marker.
fn is_fence(l: &Vec<char>) -> (r: bool)
    ensures
        r == line_is_fence(l@),
{
    l.len() >= 3 && l[0] == '`' && l[1] == '`' && l[2] == '`'
}

/// The block a single line denotes outside a code fence.
fn classify_line(l: &Vec<char>) -> (b: RenderBlock)
    ensures
        b@ == block_of_line(l@),
{
    if l.len() >= 1 && l[0] == '#' {
        let mut hp: usize = 0;
        while hp < l.len() && l[hp] == '#'
            invariant
                hp <= l@.len(),
                forall|k: int| 0 <= k < hp ==> l@[k] == '#',
            decreases l@.len() - hp,
        {
            hp = hp + 1;
        }
        proof {
            lemma_hash_prefix_at(l@, hp as int);
        }
        let level: u8 = if hp > 6 {
            6
        } else {
            hp as u8
        };
        let start: usize = if hp < l.len() && l[hp] == ' ' {
            hp + 1
        } else {
            hp
        };
        let text = crate::text::string_from(l, start);
        let b = RenderBlock::Heading { level, text };
        proof {
            assert(b@ == heading_of(l@));
        }
        b
    } else if l.len() >= 2 && l[0] == '-' && l[1] == ' ' {
        RenderBlock::Bullet { text: crate::text::string_from(l, 2) }
    } else {
        let text = crate::text::string_from(l, 0);
        proof {
            assert(text@ =~= l@);
        }
        RenderBlock::Paragraph { text }
    }
}

/// Derives the display blocks of a turn's text. Pure and total: any text,
/// including incomplete mid-stream markup, yields a block sequence.
pub fn render_turn(text: &str) -> (r: Vec<RenderBlock>)
    ensures
        r.deep_view() == rendered(text@),
{
    let chars = crate::text::chars_of(text);
    let lines = split_from(&chars, 0);
    proof {
        assert(chars@.skip(0) =~= text@);
    }
    let ghost ls = split_lines(text@);
    let mut r: Vec<RenderBlock> = Vec::new();
    let mut in_code = false;
    let mut i: usize = 0;
    proof {
        assert(ls.skip(0) =~= ls);
        assert(r.deep_view() =~= Seq::<BlockV>::empty());
        assert(Seq::<BlockV>::empty() + render_lines(ls, false) =~= render_lines(ls, false));
    }
    while i < lines.len()
        invariant
            i <= lines@.len(),
            lines.deep_view() == ls,
            render_lines(ls, false) == r.deep_view() + render_lines(ls.skip(i as int), in_code),
        decreases lines@.len() - i,
    {
        let ghost suffix = ls.skip(i as int);
        let ghost old_rd = r.deep_view();
        let ghost old_code = in_code;
        proof {
            assert(suffix[0] == ls[i as int]);
            assert(ls[i as int] == lines@[i as int].deep_view());
            assert(lines@[i as int].deep_view() =~= lines@[i as int]@);
            assert(suffix.drop_first() =~= ls.skip(i as int + 1));
        }
        let l = &lines[i];
        if in_code {
            if is_fence(l) {
                in_code = false;
            } else {
                let text_s = crate::text::string_from(l, 0);
                proof {
                    assert(text_s@ =~= l@);
                }
                let b = RenderBlock::CodeLine { text: text_s };
                let ghost bv = b@;
                r.push(b);
                proof {
                    assert(bv == BlockV::CodeLine { text: suffix[0] });
                    assert(r.deep_view() =~= old_rd + seq![bv]);
                    assert(render_lines(suffix, old_code) == seq![bv] + render_lines(
                        suffix.drop_first(),
                        true,
                    ));
                    assert((old_rd + seq![bv]) + render_lines(ls.skip(i as int + 1), true) =~= old_rd
                        + (seq![bv] + render_lines(ls.skip(i as int + 1), true)));
                }
            }
        } else {
            if is_fence(l) {
                in_code = true;
            } else if is_blank(l) {
            } else {
                let b = classify_line(l);
                let ghost bv = b@;
                r.push(b);
                proof {
                    assert(bv == block_of_line(suffix[0]));
                    assert(r.deep_view() =~= old_rd + seq![bv]);
                    assert(render_lines(suffix, false) == seq![bv] + render_lines(
                        suffix.drop_first(),
                        false,
                    ));
                    assert((old_rd + seq![bv]) + render_lines(ls.skip(i as int + 1), false)
                        =~= old_rd + (seq![bv] + render_lines(ls.skip(i as int + 1), false)));
                }
            }
        }
        i = i + 1;
    }
    proof {
        assert(ls.skip(i as int) =~= Seq::<Seq<char>>::empty());
        assert(r.deep_view() =~= r.deep_view() + render_lines(ls.skip(i as int), in_code));
    }
    r
}

} // verus!
