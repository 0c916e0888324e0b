//! The source of the templates: a text in which each line that starts with
//! `## ` opens a template, named by the rest of that line.

use crate::models::{Template, TemplateView};
use crate::text::{
    find, find_from, is_space, lemma_find_from, lemma_trimmed, push_chars, slice, to_chars,
    to_string, trim, trimmed,
};
use vstd::prelude::*;

verus! {

/// The lines of `s` from position `from` on. A line ends at a line feed,
/// which does not belong to it, nor does a carriage return just before that
/// line feed. What follows the last line feed is a line unless it is empty.
pub open spec fn lines_from(s: Seq<char>, from: int) -> Seq<Seq<char>>
    decreases s.len() - from,
{
    if from < 0 || from >= s.len() {
        Seq::empty()
    } else {
        let feed = find_from(s, '\n', from);
        let end = if from < feed < s.len() && s[feed - 1] == '\r' {
            feed - 1
        } else {
            feed
        };
        if feed >= s.len() {
            seq![s.subrange(from, end)]
        } else {
            proof {
                lemma_find_from(s, '\n', from);
            }
            seq![s.subrange(from, end)] + lines_from(s, feed + 1)
        }
    }
}

/// The lines of `s`.
pub open spec fn lines(s: Seq<char>) -> Seq<Seq<char>> {
    lines_from(s, 0)
}

/// The name of the template that `line` opens, if it opens one: the line
/// starts with `##` and a space or a tab, and the name is what follows,
/// without the white space around it, and is not empty.
pub open spec fn heading(line: Seq<char>) -> Option<Seq<char>> {
    if line.len() >= 3 && line[0] == '#' && line[1] == '#' && (line[2] == ' ' || line[2] == '\t')
        && trimmed(line.skip(2)).len() > 0 {
        Some(trimmed(line.skip(2)))
    } else {
        None
    }
}

/// `s` without one line feed at its end, and then without one carriage
/// return at its end.
pub open spec fn without_line_end(s: Seq<char>) -> Seq<char> {
    let t = if s.len() > 0 && s.last() == '\n' {
        s.drop_last()
    } else {
        s
    };
    if t.len() > 0 && t.last() == '\r' {
        t.drop_last()
    } else {
        t
    }
}

/// The sections that `lines` form, each with its body as it was collected:
/// a heading opens a section, and every other line is added, with a line
/// feed after it, to the body of the section that is open. Lines before the
/// first heading belong to none.
pub open spec fn sections(lines: Seq<Seq<char>>) -> Seq<TemplateView>
    decreases lines.len(),
{
    if lines.len() == 0 {
        Seq::empty()
    } else {
        let before = sections(lines.drop_last());
        match heading(lines.last()) {
            Some(name) => before.push(TemplateView { name, body: Seq::empty() }),
            None => if before.len() == 0 {
                before
            } else {
                before.update(
                    before.len() - 1,
                    TemplateView {
                        name: before.last().name,
                        body: before.last().body + lines.last() + seq!['\n'],
                    },
                )
            },
        }
    }
}

/// The section `section` as a template: its body loses the line end that
/// closes it.
pub open spec fn finished(section: TemplateView) -> TemplateView {
    TemplateView { name: section.name, body: without_line_end(section.body) }
}

/// The sections `all` as templates.
pub open spec fn finish_all(all: Seq<TemplateView>) -> Seq<TemplateView> {
    all.map_values(|section: TemplateView| finished(section))
}

/// The templates that the text `content` holds.
pub open spec fn templates_of(content: Seq<char>) -> Seq<TemplateView> {
    finish_all(sections(lines(content)))
}

/// The sections of `lines` to which no further line can be added: all but
/// the last.
spec fn closed(lines: Seq<Seq<char>>) -> Seq<TemplateView> {
    if sections(lines).len() == 0 {
        Seq::empty()
    } else {
        sections(lines).drop_last()
    }
}

/// Every section has a name that is not empty and has no white space at
/// its ends.
proof fn lemma_section_names(lines: Seq<Seq<char>>)
    ensures
        forall|i: int|
            0 <= i < sections(lines).len() ==> {
                let name = (#[trigger] sections(lines)[i]).name;
                name.len() > 0 && !is_space(name[0]) && !is_space(name.last())
            },
    decreases lines.len(),
{
    if lines.len() > 0 {
        let before = sections(lines.drop_last());
        lemma_section_names(lines.drop_last());
        lemma_trimmed(lines.last().skip(2));
        assert forall|i: int| 0 <= i < sections(lines).len() implies {
            let name = (#[trigger] sections(lines)[i]).name;
            name.len() > 0 && !is_space(name[0]) && !is_space(name.last())
        } by {
            if i < before.len() {
                assert(sections(lines)[i].name == before[i].name);
            }
        }
    }
}

/// Every template has a name, and the name has no white space at its ends.
pub proof fn template_names_are_trimmed(content: Seq<char>)
    ensures
        forall|i: int|
            0 <= i < templates_of(content).len() ==> {
                let name = (#[trigger] templates_of(content)[i]).name;
                name.len() > 0 && !is_space(name[0]) && !is_space(name.last())
            },
{
    lemma_section_names(lines(content));
    assert forall|i: int| 0 <= i < templates_of(content).len() implies {
        let name = (#[trigger] templates_of(content)[i]).name;
        name.len() > 0 && !is_space(name[0]) && !is_space(name.last())
    } by {
        assert(templates_of(content)[i].name == sections(lines(content))[i].name);
    }
}

/// `parse_heading` on characters.
fn heading_of(line: &[char]) -> (name: Option<String>)
    ensures
        name.deep_view() == heading(line@),
{
    if line.len() < 3 || line[0] != '#' || line[1] != '#' || !(line[2] == ' ' || line[2] == '\t') {
        return None;
    }
    let title = trim(slice(line, 2, line.len()));
    assert(line@.subrange(2, line@.len() as int) == line@.skip(2));
    if title.len() == 0 {
        None
    } else {
        Some(to_string(title))
    }
}

/// The name of the template that `line` opens, or `None` where the line is
/// no heading: a heading starts with `##` and a space or a tab, and what
/// follows, without the white space around it, is the name, which is not
/// empty.
pub fn parse_heading(line: &str) -> (name: Option<String>)
    ensures
        name.deep_view() == heading(line@),
{
    let chars = to_chars(line);
    heading_of(chars.as_slice())
}

/// `input` without one line feed at its end, and then without one carriage
/// return at its end.
pub fn trim_trailing_newline(input: &str) -> (output: &str)
    ensures
        output@ == without_line_end(input@),
{
    let mut end = input.unicode_len();
    if end > 0 && input.get_char(end - 1) == '\n' {
        end -= 1;
    }
    if end > 0 && input.get_char(end - 1) == '\r' {
        end -= 1;
    }
    let output = input.substring_char(0, end);
    assert(output@ =~= without_line_end(input@));
    output
}

/// The templates that the text `content` holds, in order.
///
/// A line that is a heading opens a template and names it. The lines up to
/// the next heading, or to the end, are its body, each followed by a line
/// feed; the body's last line end is taken off. Lines before the first
/// heading are left out.
pub fn parse_templates(content: &str) -> (templates: Vec<Template>)
    ensures
        templates.deep_view() == templates_of(content@),
{
    let chars = to_chars(content);
    let s = chars.as_slice();
    let len = s.len();
    let mut templates: Vec<Template> = Vec::new();
    let mut current_title: Option<String> = None;
    let mut body = String::new();
    let mut at: usize = 0;
    let ghost mut seen: Seq<Seq<char>> = Seq::empty();
    assert(templates.deep_view() =~= finish_all(closed(seen)));
    while at < len
        invariant
            at <= len == s@.len(),
            s@ == content@,
            lines(s@) == seen + lines_from(s@, at as int),
            current_title is None <==> sections(seen).len() == 0,
            current_title is Some ==> sections(seen).last() == (TemplateView {
                name: current_title->0@,
                body: body@,
            }),
            templates.deep_view() == finish_all(closed(seen)),
        decreases len - at,
    {
        let ghost done = templates.deep_view();
        let feed = find(s, '\n', at);
        let end = if at < feed && feed < len && s[feed - 1] == '\r' {
            feed - 1
        } else {
            feed
        };
        let line = slice(s, at, end);
        let ghost next = seen.push(line@);
        proof {
            assert(next.drop_last() =~= seen);
            assert(next.last() == line@);
            if feed < len {
                assert(lines(s@) =~= next + lines_from(s@, feed + 1));
            } else {
                assert(lines(s@) =~= next + lines_from(s@, len as int));
            }
        }
        match heading_of(line) {
            Some(title) => {
                assert(sections(next) == sections(seen).push(
                    TemplateView { name: title@, body: Seq::empty() },
                ));
                assert(closed(next) =~= sections(seen));
                match current_title {
                    Some(prev) => {
                        let text = trim_trailing_newline(body.as_str());
                        templates.push(Template { name: prev, body: text.to_owned() });
                        assert(templates.deep_view() =~= done.push(
                            finished(sections(seen).last()),
                        ));
                        assert(sections(seen) =~= closed(seen).push(sections(seen).last()));
                        assert(templates.deep_view() =~= finish_all(closed(next)));
                    },
                    None => {
                        assert(templates.deep_view() =~= finish_all(closed(next)));
                    },
                }
                body = String::new();
                current_title = Some(title);
            },
            None => {
                if current_title.is_some() {
                    push_chars(&mut body, line);
                    body.push('\n');
                    assert(body@ =~= sections(seen).last().body + line@ + seq!['\n']);
                    assert(closed(next) =~= closed(seen));
                } else {
                    assert(sections(next) == sections(seen));
                }
            },
        }
        proof {
            seen = next;
        }
        if feed < len {
            at = feed + 1;
        } else {
            at = len;
        }
    }
    assert(seen + lines_from(s@, len as int) =~= seen);
    let ghost done = templates.deep_view();
    match current_title {
        Some(title) => {
            let text = trim_trailing_newline(body.as_str());
            templates.push(Template { name: title, body: text.to_owned() });
            assert(templates.deep_view() =~= done.push(finished(sections(seen).last())));
            assert(sections(seen) =~= closed(seen).push(sections(seen).last()));
            assert(templates.deep_view() =~= templates_of(content@));
        },
        None => {
            assert(templates.deep_view() =~= templates_of(content@));
        },
    }
    templates
}

/// What is said where a source holds no template.
pub const NO_TEMPLATES: &'static str = "未找到任何模板，请检查是否有 `## 标题` 段落。";

/// The templates that the text `content` holds, or, where it holds none,
/// the message that says so.
pub fn load_templates(content: &str) -> (loaded: Result<Vec<Template>, String>)
    ensures
        match loaded {
            Ok(templates) => templates.deep_view() == templates_of(content@) && templates@.len() > 0,
            Err(message) => templates_of(content@).len() == 0 && message@ == NO_TEMPLATES@,
        },
{
    let templates = parse_templates(content);
    if templates.len() == 0 {
        return Err(NO_TEMPLATES.to_owned());
    }
    Ok(templates)
}

} // verus!
