use vstd::prelude::*;
use crate::merge::{entries_wf, err_of, extend_hashmap, lemma_nest_wf, merge_entries};
use crate::model::{Doc, MapNodes, Node, keys_view, nest_doc, string_to_dict};
use crate::options::{EngineOptions, Error};
use crate::scalar::{infer_scalar, infer_spec};
use crate::text::{find_delimiter, find_from, split_dots, split_path};

verus! {

/// What the host should do after a line.
#[derive(Debug)]
pub enum LineOutcome {
    /// The line carried nothing for the engine.
    Ignored,
    /// The line's value was merged into the document.
    Applied,
    /// The `clear` command emptied the document.
    Cleared,
    /// The `flush` command: the document as it was, to be emitted; the
    /// engine's own document is now empty.
    Flushed(MapNodes),
    /// The `end` command: as `Flushed`, after which the host stops.
    Ended(MapNodes),
    /// A command the engine does not know; nothing changed.
    UnknownCommand,
}

/// The dotted-path prefix that turns a line into a command.
pub open spec fn command_prefix() -> Seq<char> {
    seq!['s', 't', 'd', 'o', 'u', 't', '.', 'l', 'o', 'o', 'p']
}

pub open spec fn is_command_key(key: Seq<char>) -> bool {
    key.len() >= 11 && key.subrange(0, 11) == command_prefix()
}

/// The entries of the singleton mapping that a dotted path and a value text
/// build.
pub open spec fn line_entries(key: Seq<char>, value: Seq<char>) -> Seq<(Seq<char>, Doc)> {
    match nest_doc(split_dots(key), Doc::Leaf(infer_spec(value))) {
        Doc::Dict(e) => e,
        _ => Seq::empty(),
    }
}

/// Relates the engine before and after a path and a value are handled, and
/// the outcome: a command under the command prefix, else a merge of the
/// singleton mapping the path builds.
pub open spec fn entry_handled(
    pre: Engine,
    post: Engine,
    key: Seq<char>,
    value: Seq<char>,
    r: Result<LineOutcome, Error>,
) -> bool {
    &&& post.options == pre.options
    &&& if is_command_key(key) {
        if value == seq!['c', 'l', 'e', 'a', 'r'] {
            post.values@ == Seq::<(Seq<char>, Doc)>::empty() && r matches Ok(LineOutcome::Cleared)
        } else if value == seq!['f', 'l', 'u', 's', 'h'] {
            post.values@ == Seq::<(Seq<char>, Doc)>::empty() && (r matches Ok(
                LineOutcome::Flushed(m),
            ) && m@ == pre.values@)
        } else if value == seq!['e', 'n', 'd'] {
            post.values@ == Seq::<(Seq<char>, Doc)>::empty() && (r matches Ok(
                LineOutcome::Ended(m),
            ) && m@ == pre.values@)
        } else {
            post.values@ == pre.values@ && r matches Ok(LineOutcome::UnknownCommand)
        }
    } else {
        let m = merge_entries(
            pre.values@,
            line_entries(key, value),
            pre.options.how_to_dict_in_array,
        );
        &&& post.values@ == m.0
        &&& match r {
            Ok(o) => m.1 is None && o is Applied,
            Err(e) => m.1 == Some(e),
        }
    }
}

/// What is left of a text once leading and trailing whitespace are removed.
pub uninterp spec fn trimmed(s: Seq<char>) -> Seq<char>;

/// Relies on `str::trim`: it removes leading and trailing whitespace, and
/// its result depends on the text alone.
#[verifier::external_body]
fn trim_text(s: &str) -> (r: String)
    ensures
        r@ == trimmed(s@),
{
    s.trim().to_string()
}

/// The document under construction and the configuration it is built with.
pub struct Engine {
    pub options: EngineOptions,
    pub values: MapNodes,
}

impl Engine {
    /// An engine with an empty document.
    pub fn new(options: EngineOptions) -> (r: Self)
        ensures
            r.options == options,
            r.values@ == Seq::<(Seq<char>, Doc)>::empty(),
    {
        Engine { values: MapNodes::new(), options: options }
    }

    /// Runs the command `command`: `clear` empties the document, `flush` and
    /// `end` hand it out and empty it; any other is reported as unknown.
    pub fn handle_special_lines(&mut self, command: &str) -> (r: LineOutcome)
        ensures
            entry_handled(*old(self), *final(self), command_prefix(), command@, Ok(r)),
            entries_wf(old(self).values@) ==> entries_wf(final(self).values@),
    {
        let c = String::from_str(command);
        proof {
            reveal_strlit("clear");
            reveal_strlit("flush");
            reveal_strlit("end");
            assert(command_prefix().subrange(0, 11) =~= command_prefix());
            assert("clear"@ =~= seq!['c', 'l', 'e', 'a', 'r']);
            assert("flush"@ =~= seq!['f', 'l', 'u', 's', 'h']);
            assert("end"@ =~= seq!['e', 'n', 'd']);
        }
        if c == String::from_str("clear") {
            self.values = MapNodes::new();
            LineOutcome::Cleared
        } else if c == String::from_str("flush") {
            let mut doc = MapNodes::new();
            std::mem::swap(&mut self.values, &mut doc);
            LineOutcome::Flushed(doc)
        } else if c == String::from_str("end") {
            let mut doc = MapNodes::new();
            std::mem::swap(&mut self.values, &mut doc);
            LineOutcome::Ended(doc)
        } else {
            LineOutcome::UnknownCommand
        }
    }

    /// Handles a dotted path and the value text that goes with it: a command
    /// where the path starts with `stdout.loop`, else the value, read as a
    /// scalar, is merged into the document at that path.
    pub fn apply_entry(&mut self, dotted_key: &str, value: &str) -> (r: Result<LineOutcome, Error>)
        ensures
            entry_handled(*old(self), *final(self), dotted_key@, value@, r),
            entries_wf(old(self).values@) ==> entries_wf(final(self).values@),
    {
        let n = dotted_key.unicode_len();
        proof {
            reveal_strlit("stdout.loop");
            assert("stdout.loop"@ =~= command_prefix());
            assert(command_prefix().subrange(0, 11) =~= command_prefix());
        }
        let is_command = n >= 11 && String::from_str(dotted_key.substring_char(0, 11))
            == String::from_str("stdout.loop");
        assert(is_command == is_command_key(dotted_key@));
        if is_command {
            let o = self.handle_special_lines(value);
            return Ok(o);
        }
        let leaf = infer_scalar(value);
        let keys = split_path(dotted_key);
        let h = string_to_dict(keys, Node::Leaf(leaf));
        assert(h@ == line_entries(dotted_key@, value@));
        proof {
            lemma_nest_wf(split_dots(dotted_key@), Doc::Leaf(infer_spec(value@)));
        }
        match extend_hashmap(&mut self.values, h, &self.options) {
            Ok(()) => Ok(LineOutcome::Applied),
            Err(e) => Err(e),
        }
    }

    /// Handles one input line. A line that does not start with `;`, or has
    /// no delimiter after it, is ignored. Otherwise the text between `;` and
    /// the first delimiter is the dotted path and the rest, trimmed, is the
    /// value, further delimiters included; they go to `apply_entry`.
    pub fn add_line(&mut self, line: &str) -> (r: Result<LineOutcome, Error>)
        ensures
            ({
                let rest = line@.drop_first();
                let d = old(self).options.key_to_value_delimiter@;
                let i = find_from(rest, d, 0);
                if line@.len() == 0 || line@[0] != ';' || i < 0 {
                    *final(self) == *old(self) && r matches Ok(LineOutcome::Ignored)
                } else {
                    entry_handled(
                        *old(self),
                        *final(self),
                        rest.subrange(0, i),
                        trimmed(rest.subrange(i + d.len(), rest.len() as int)),
                        r,
                    )
                }
            }),
            entries_wf(old(self).values@) ==> entries_wf(final(self).values@),
    {
        let n = line.unicode_len();
        if n == 0 || line.get_char(0) != ';' {
            return Ok(LineOutcome::Ignored);
        }
        let rest = line.substring_char(1, n);
        assert(rest@ =~= line@.drop_first());
        let dl = self.options.key_to_value_delimiter.unicode_len();
        match find_delimiter(rest, self.options.key_to_value_delimiter.as_str()) {
            None => Ok(LineOutcome::Ignored),
            Some(i) => {
                let key = rest.substring_char(0, i);
                let value = trim_text(rest.substring_char(i + dl, n - 1));
                self.apply_entry(key, value.as_str())
            },
        }
    }
}

} // verus!
