//! An indentation-aware writer of schema text into a buffer.
use vstd::prelude::*;
use crate::text::{decimal, push_decimal, push_text};

verus! {

/// Two spaces for each level of nesting.
pub open spec fn indentation(n: nat) -> Seq<char>
    decreases n,
{
    if n == 0 {
        Seq::empty()
    } else {
        indentation((n - 1) as nat) + seq![' ', ' ']
    }
}

/// One complete line at the given nesting depth.
pub open spec fn line_text(depth: nat, content: Seq<char>) -> Seq<char> {
    indentation(depth) + content + seq!['\n']
}

/// A line that may continue one already begun: the indentation is written
/// only when at the start of a line.
pub open spec fn line_from(at_line_start: bool, depth: nat, content: Seq<char>) -> Seq<char> {
    (if at_line_start { indentation(depth) } else { Seq::empty() }) + content + seq!['\n']
}

/// The annotation that marks a field as not nullable.
pub open spec fn non_nullable() -> Seq<char> {
    " [(gogoproto.nullable)=false]"@
}

/// The text of a field statement, without indentation or line break.
pub open spec fn field_content(ty: Seq<char>, name: Seq<char>, number: nat, annotation: Seq<char>) -> Seq<char> {
    ty + " "@ + name + " = "@ + decimal(number) + annotation + ";"@
}

/// The header line of a block, without indentation or line break.
pub open spec fn block_header(keyword: Seq<char>, name: Seq<char>) -> Seq<char> {
    keyword + name + " {"@
}

pub struct Emitter {
    pub buf: String,
    pub at_line_start: bool,
    pub indent: usize,
}

impl Emitter {
    /// An emitter at the start of an empty buffer, without indentation.
    pub fn new() -> (e: Emitter)
        ensures
            e.buf@ == Seq::<char>::empty(),
            e.at_line_start,
            e.indent == 0,
    {
        Emitter { buf: String::new(), at_line_start: true, indent: 0 }
    }

    /// The text written so far.
    pub fn output(&self) -> (r: &str)
        ensures
            r@ == self.buf@,
    {
        self.buf.as_str()
    }

    /// Writes `text`, preceded by the indentation when at the start of a line.
    pub fn text(&mut self, text: &str)
        ensures
            final(self).buf@ == old(self).buf@ + (if old(self).at_line_start {
                indentation(old(self).indent as nat)
            } else {
                Seq::empty()
            }) + text@,
            !final(self).at_line_start,
            final(self).indent == old(self).indent,
    {
        if self.at_line_start {
            let ghost start = self.buf@;
            let mut i: usize = 0;
            while i < self.indent
                invariant
                    i <= self.indent,
                    self.indent == old(self).indent,
                    start == old(self).buf@,
                    self.buf@ == start + indentation(i as nat),
                decreases self.indent - i,
            {
                push_text(&mut self.buf, "  ");
                proof {
                    reveal_strlit("  ");
                    assert(self.buf@ =~= start + indentation((i + 1) as nat));
                }
                i += 1;
            }
        }
        self.at_line_start = false;
        push_text(&mut self.buf, text);
        proof {
            if old(self).at_line_start {
                assert(self.buf@ =~= old(self).buf@ + indentation(old(self).indent as nat) + text@);
            } else {
                assert(self.buf@ =~= old(self).buf@ + Seq::<char>::empty() + text@);
            }
        }
    }

    /// Ends the current line.
    pub fn line(&mut self)
        ensures
            final(self).buf@ == old(self).buf@ + (if old(self).at_line_start {
                indentation(old(self).indent as nat)
            } else {
                Seq::empty()
            }) + seq!['\n'],
            final(self).at_line_start,
            final(self).indent == old(self).indent,
    {
        self.text("\n");
        proof {
            reveal_strlit("\n");
        }
        self.at_line_start = true;
    }

    fn begin_block(&mut self, keyword: &str, name: &str)
        requires
            old(self).indent < usize::MAX,
        ensures
            final(self).buf@ == old(self).buf@ + line_from(
                old(self).at_line_start,
                old(self).indent as nat,
                block_header(keyword@, name@),
            ),
            final(self).at_line_start,
            final(self).indent == old(self).indent + 1,
    {
        self.text(keyword);
        self.text(name);
        self.text(" {");
        self.indent += 1;
        self.line();
        assert(self.buf@ =~= old(self).buf@ + line_from(
            old(self).at_line_start,
            old(self).indent as nat,
            block_header(keyword@, name@),
        ));
    }

    /// Opens a `message` block and nests what follows one level deeper.
    pub fn begin_message(&mut self, name: &str)
        requires
            old(self).indent < usize::MAX,
        ensures
            final(self).buf@ == old(self).buf@ + line_from(
                old(self).at_line_start,
                old(self).indent as nat,
                block_header("message "@, name@),
            ),
            final(self).at_line_start,
            final(self).indent == old(self).indent + 1,
    {
        self.begin_block("message ", name);
    }

    /// Opens a `oneof` block and nests what follows one level deeper.
    pub fn begin_oneof(&mut self, name: &str)
        requires
            old(self).indent < usize::MAX,
        ensures
            final(self).buf@ == old(self).buf@ + line_from(
                old(self).at_line_start,
                old(self).indent as nat,
                block_header("oneof "@, name@),
            ),
            final(self).at_line_start,
            final(self).indent == old(self).indent + 1,
    {
        self.begin_block("oneof ", name);
    }

    /// Writes a repeated field statement numbered `*id`, and advances `*id`.
    pub fn repeated_field(&mut self, name: &str, ty: &str, id: &mut usize)
        requires
            *old(id) < usize::MAX,
        ensures
            final(self).buf@ == old(self).buf@ + line_from(
                old(self).at_line_start,
                old(self).indent as nat,
                "repeated "@ + field_content(ty@, name@, *old(id) as nat, Seq::empty()),
            ),
            final(self).at_line_start,
            final(self).indent == old(self).indent,
            *final(id) == *old(id) + 1,
    {
        let ghost start = self.buf@;
        self.text("repeated ");
        self.field_with_annotations(name, ty, id, "");
        proof {
            reveal_strlit("");
            assert(self.buf@ =~= start + line_from(
                old(self).at_line_start,
                old(self).indent as nat,
                "repeated "@ + field_content(ty@, name@, *old(id) as nat, Seq::empty()),
            ));
        }
    }

    /// Writes a field statement numbered `*id`, and advances `*id`.
    pub fn plain_field(&mut self, name: &str, ty: &str, id: &mut usize)
        requires
            *old(id) < usize::MAX,
        ensures
            final(self).buf@ == old(self).buf@ + line_from(
                old(self).at_line_start,
                old(self).indent as nat,
                field_content(ty@, name@, *old(id) as nat, Seq::empty()),
            ),
            final(self).at_line_start,
            final(self).indent == old(self).indent,
            *final(id) == *old(id) + 1,
    {
        self.field_with_annotations(name, ty, id, "");
        proof {
            reveal_strlit("");
        }
    }

    /// Writes a field statement marked not nullable, numbered `*id`, and
    /// advances `*id`.
    pub fn defaulted_field(&mut self, name: &str, ty: &str, id: &mut usize)
        requires
            *old(id) < usize::MAX,
        ensures
            final(self).buf@ == old(self).buf@ + line_from(
                old(self).at_line_start,
                old(self).indent as nat,
                field_content(ty@, name@, *old(id) as nat, non_nullable()),
            ),
            final(self).at_line_start,
            final(self).indent == old(self).indent,
            *final(id) == *old(id) + 1,
    {
        self.field_with_annotations(name, ty, id, " [(gogoproto.nullable)=false]");
    }

    /// Writes the rest of a field statement numbered `*id`, with `annotation`
    /// before the semicolon, ends the line, and advances `*id`.
    pub fn field_with_annotations(&mut self, name: &str, ty: &str, id: &mut usize, annotation: &str)
        requires
            *old(id) < usize::MAX,
        ensures
            final(self).buf@ == old(self).buf@ + (if old(self).at_line_start {
                indentation(old(self).indent as nat)
            } else {
                Seq::empty()
            }) + field_content(ty@, name@, *old(id) as nat, annotation@) + seq!['\n'],
            final(self).at_line_start,
            final(self).indent == old(self).indent,
            *final(id) == *old(id) + 1,
    {
        self.text(ty);
        self.text(" ");
        self.text(name);
        self.text(" = ");
        push_decimal(&mut self.buf, *id);
        self.text(annotation);
        self.text(";");
        self.line();
        *id += 1;
        let ghost ind = if old(self).at_line_start {
            indentation(old(self).indent as nat)
        } else {
            Seq::empty()
        };
        assert(self.buf@ =~= old(self).buf@ + ind + field_content(
            ty@,
            name@,
            *old(id) as nat,
            annotation@,
        ) + seq!['\n']);
    }

    /// Closes the innermost open block.
    pub fn end(&mut self)
        requires
            old(self).indent > 0,
        ensures
            final(self).buf@ == old(self).buf@ + line_from(old(self).at_line_start, (old(self).indent - 1) as nat, "}"@),
            final(self).at_line_start,
            final(self).indent == old(self).indent - 1,
    {
        self.indent -= 1;
        self.text("}");
        self.line();
        assert(self.buf@ =~= old(self).buf@ + line_from(old(self).at_line_start, (old(self).indent - 1) as nat, "}"@));
    }
}

} // verus!
