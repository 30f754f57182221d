use crate::blocks::OcrBlock;
use crate::config::{decimal_of, push_decimal};
use crate::pipeline::PageResult;
use crate::text::{chars_of, trim, trimmed};
use vstd::prelude::*;
use vstd::string::*;

verus! {

/// `s` split at every line feed; a text without line feeds is one line.
pub open spec fn split_lines(s: Seq<char>) -> Seq<Seq<char>>
    decreases s.len(),
{
    if s.len() == 0 {
        seq![Seq::empty()]
    } else {
        let p = split_lines(s.drop_last());
        if s.last() == '\n' {
            p.push(Seq::empty())
        } else {
            p.update(p.len() - 1, p.last().push(s.last()))
        }
    }
}

proof fn lemma_split_lines_nonempty(s: Seq<char>)
    ensures
        split_lines(s).len() >= 1,
    decreases s.len(),
{
    if s.len() > 0 {
        lemma_split_lines_nonempty(s.drop_last());
    }
}

/// The trimmed non-empty lines among `ls`, joined by line feeds.
pub open spec fn clean_lines(ls: Seq<Seq<char>>) -> Seq<char>
    decreases ls.len(),
{
    if ls.len() == 0 {
        Seq::empty()
    } else {
        let prev = clean_lines(ls.drop_last());
        let t = trimmed(ls.last());
        if t.len() == 0 {
            prev
        } else if prev.len() == 0 {
            t
        } else {
            prev + seq!['\n'] + t
        }
    }
}

/// A recognised text with every line trimmed and blank lines dropped.
pub open spec fn cleaned_text(s: Seq<char>) -> Seq<char> {
    clean_lines(split_lines(s))
}

/// The Markdown of one block: its cleaned text and a blank line.
pub open spec fn block_markdown(b: OcrBlock) -> Seq<char> {
    cleaned_text(b.text@) + seq!['\n', '\n']
}

/// The Markdown of the blocks `bs`, in order.
pub open spec fn blocks_markdown(bs: Seq<OcrBlock>) -> Seq<char>
    decreases bs.len(),
{
    if bs.len() == 0 {
        Seq::empty()
    } else {
        blocks_markdown(bs.drop_last()) + block_markdown(bs.last())
    }
}

/// The Markdown of one page: a heading with its number, then its blocks.
pub open spec fn page_markdown(r: PageResult) -> Seq<char> {
    "## Page "@ + decimal_of(r.page_num as nat) + seq!['\n', '\n'] + blocks_markdown(r.page.blocks@)
}

/// The Markdown of the pages `rs`, in order.
pub open spec fn pages_markdown(rs: Seq<PageResult>) -> Seq<char>
    decreases rs.len(),
{
    if rs.len() == 0 {
        Seq::empty()
    } else {
        pages_markdown(rs.drop_last()) + page_markdown(rs.last())
    }
}

/// The metadata header: source, processing time, page count, and a rule.
pub open spec fn metadata_markdown(source: Seq<char>, processed_at: Seq<char>, pages: nat) -> Seq<char> {
    "# Document OCR Result\n\n- **Source**: "@ + source + "\n- **Processed**: "@ + processed_at
        + "\n- **Total Pages**: "@ + decimal_of(pages) + "\n- **Tool**: RustOCR2md\n"@ + "\n---\n\n"@
}

/// Assembles recognised pages into one Markdown document.
pub struct MarkdownBuilder {
    include_metadata: bool,
}

impl MarkdownBuilder {
    /// Whether the document starts with a metadata header.
    pub closed spec fn with_metadata(&self) -> bool {
        self.include_metadata
    }

    /// A builder that writes the metadata header.
    pub fn new() -> (r: MarkdownBuilder)
        ensures
            r.with_metadata(),
    {
        MarkdownBuilder { include_metadata: true }
    }

    /// A recognised text with every line trimmed and blank lines dropped.
    pub fn clean_ocr_text(&self, text: &str) -> (r: String)
        ensures
            r@ == cleaned_text(text@),
    {
        let cs = chars_of(text);
        let n = cs.len();
        let mut out = String::new();
        let mut ls: usize = 0;
        let mut k: usize = 0;
        let ghost mut done: Seq<Seq<char>> = Seq::empty();
        assert(cs@.subrange(0, 0) =~= Seq::<char>::empty());
        assert(split_lines(Seq::<char>::empty()) == seq![Seq::<char>::empty()]);
        assert(seq![cs@.subrange(0, 0)] =~= done + seq![cs@.subrange(0, 0)]);
        loop
            invariant
                n == cs@.len(),
                cs@ == text@,
                0 <= ls <= k <= n,
                split_lines(cs@.subrange(0, k as int)) == done + seq![cs@.subrange(ls as int, k as int)],
                out@ == clean_lines(done),
            decreases n - k,
        {
            if k == n || cs[k] == '\n' {
                let line = text.substring_char(ls, k);
                let t = trim(line);
                let ghost before = out@;
                let ghost line_seq = cs@.subrange(ls as int, k as int);
                proof {
                    let nd = done.push(line_seq);
                    assert(nd.drop_last() == done);
                    assert(nd.last() == line_seq);
                }
                if t.unicode_len() > 0 {
                    if out.unicode_len() > 0 {
                        out.append("\n");
                    }
                    out.append(t);
                    proof {
                        reveal_strlit("\n");
                    }
                }
                assert(out@ =~= clean_lines(done.push(line_seq)));
                if k == n {
                    proof {
                        assert(cs@.subrange(0, n as int) =~= cs@);
                        assert(done + seq![line_seq] =~= done.push(line_seq));
                    }
                    return out;
                }
                proof {
                    let p = cs@.subrange(0, k + 1);
                    assert(p.drop_last() =~= cs@.subrange(0, k as int));
                    assert(p.last() == '\n');
                    assert(done + seq![line_seq] =~= done.push(line_seq));
                    assert(cs@.subrange(k + 1, k + 1) =~= Seq::<char>::empty());
                    assert(done.push(line_seq).push(Seq::empty()) =~= done.push(line_seq) + seq![cs@.subrange(k + 1, k + 1)]);
                    done = done.push(line_seq);
                }
                ls = k + 1;
            } else {
                proof {
                    let p = cs@.subrange(0, k + 1);
                    assert(p.drop_last() =~= cs@.subrange(0, k as int));
                    assert(p.last() == cs@[k as int]);
                    let q = done + seq![cs@.subrange(ls as int, k as int)];
                    assert(q.last() == cs@.subrange(ls as int, k as int));
                    assert(cs@.subrange(ls as int, k as int).push(cs@[k as int]) =~= cs@.subrange(ls as int, k + 1));
                    assert(q.update(q.len() - 1, q.last().push(cs@[k as int])) =~= done + seq![cs@.subrange(ls as int, k + 1)]);
                }
            }
            k = k + 1;
        }
    }

    fn push_blocks(&self, out: &mut String, blocks: &Vec<OcrBlock>)
        ensures
            final(out)@ == old(out)@ + blocks_markdown(blocks@),
    {
        let ghost start = old(out)@;
        let mut k: usize = 0;
        assert(blocks@.subrange(0, 0) =~= Seq::<OcrBlock>::empty());
        while k < blocks.len()
            invariant
                0 <= k <= blocks@.len(),
                out@ == start + blocks_markdown(blocks@.subrange(0, k as int)),
            decreases blocks@.len() - k,
        {
            let cleaned = self.clean_ocr_text(blocks[k].text.as_str());
            out.append(cleaned.as_str());
            out.append("\n\n");
            proof {
                reveal_strlit("\n\n");
                let p = blocks@.subrange(0, k + 1);
                assert(p.drop_last() =~= blocks@.subrange(0, k as int));
                assert(p.last() == blocks@[k as int]);
            }
            assert(out@ =~= start + blocks_markdown(blocks@.subrange(0, k + 1)));
            k = k + 1;
        }
        assert(blocks@.subrange(0, blocks@.len() as int) =~= blocks@);
    }

    /// The Markdown document of the pages `results` of `source_path`,
    /// processed at `processed_at`: the metadata header when enabled, then each
    /// page's heading and blocks.
    pub fn build(&self, results: &Vec<PageResult>, source_path: &str, processed_at: &str) -> (r: String)
        ensures
            self.with_metadata() ==> r@ == metadata_markdown(source_path@, processed_at@, results@.len()) + pages_markdown(results@),
            !self.with_metadata() ==> r@ == pages_markdown(results@),
    {
        let mut out = String::new();
        if self.include_metadata {
            out.append("# Document OCR Result\n\n- **Source**: ");
            out.append(source_path);
            out.append("\n- **Processed**: ");
            out.append(processed_at);
            out.append("\n- **Total Pages**: ");
            push_decimal(&mut out, results.len() as u64);
            out.append("\n- **Tool**: RustOCR2md\n");
            out.append("\n---\n\n");
            assert(out@ =~= metadata_markdown(source_path@, processed_at@, results@.len()));
        }
        let ghost head = out@;
        let mut k: usize = 0;
        assert(results@.subrange(0, 0) =~= Seq::<PageResult>::empty());
        assert(head + Seq::<char>::empty() =~= head);
        while k < results.len()
            invariant
                0 <= k <= results@.len(),
                out@ == head + pages_markdown(results@.subrange(0, k as int)),
            decreases results@.len() - k,
        {
            let ghost before = out@;
            out.append("## Page ");
            push_decimal(&mut out, results[k].page_num as u64);
            out.append("\n\n");
            self.push_blocks(&mut out, &results[k].page.blocks);
            proof {
                reveal_strlit("## Page ");
                reveal_strlit("\n\n");
                let p = results@.subrange(0, k + 1);
                assert(p.drop_last() =~= results@.subrange(0, k as int));
                assert(p.last() == results@[k as int]);
            }
            assert(out@ =~= head + pages_markdown(results@.subrange(0, k + 1)));
            k = k + 1;
        }
        assert(results@.subrange(0, results@.len() as int) =~= results@);
        out
    }
}

} // verus!
