//! Turning a fetched payload into display text: tags are dropped and the
//! common character entities replaced.
use vstd::prelude::*;

use vstd::std_specs::iter::IteratorSpec;

use crate::url::URLHandler;

verus! {

/// The characters of a string, in order.
fn chars_of(s: &str) -> (r: Vec<char>)
    ensures
        r@ == s@,
{
    broadcast use vstd::string::axiom_spec_iter, vstd::string::next_postcondition;

    let mut it = s.chars();
    let mut out: Vec<char> = Vec::new();
    loop
        invariant
            out@ + IteratorSpec::remaining(&it) == s@,
            IteratorSpec::decrease(&it) is Some,
        decreases IteratorSpec::decrease(&it)->0,
    {
        let ghost before = IteratorSpec::remaining(&it);
        match it.next() {
            Some(c) => {
                out.push(c);
                assert(out@ + IteratorSpec::remaining(&it) =~= s@) by {
                    assert(before =~= seq![c] + before.drop_first());
                }
            },
            None => {
                assert(out@ =~= s@);
                return out;
            },
        }
    }
}

/// Relies on `String::push`: it appends one character.
#[verifier::external_body]
fn push_char(s: &mut String, c: char)
    ensures
        final(s)@ == old(s)@.push(c),
{
    s.push(c);
}

/// The character a named entity stands for.
pub open spec fn entity_spec(name: Seq<char>) -> Option<char> {
    if name == seq!['g', 't'] {
        Some('>')
    } else if name == seq!['l', 't'] {
        Some('<')
    } else if name == seq!['a', 'm', 'p'] {
        Some('&')
    } else if name == seq!['q', 'u', 'o', 't'] {
        Some('"')
    } else if name == seq!['a', 'p', 'o', 's'] {
        Some('\'')
    } else {
        None
    }
}

/// The extractor's state: inside a tag, inside an entity, the entity name
/// read so far, and the text produced so far.
pub struct Strip {
    pub in_tag: bool,
    pub in_entity: bool,
    pub entity: Seq<char>,
    pub text: Seq<char>,
}

pub open spec fn strip_step(st: Strip, c: char) -> Strip {
    if c == '<' {
        Strip { in_tag: true, ..st }
    } else if c == '>' {
        Strip { in_tag: false, ..st }
    } else if c == '&' {
        Strip { in_entity: true, ..st }
    } else if c == ';' && st.in_entity {
        Strip {
            in_entity: false,
            entity: Seq::empty(),
            text: match entity_spec(st.entity) {
                Some(x) => st.text.push(x),
                None => st.text + seq!['&'] + st.entity + seq![';'],
            },
            ..st
        }
    } else if st.in_entity {
        Strip { entity: st.entity.push(c), ..st }
    } else if !st.in_tag {
        Strip { text: st.text.push(c), ..st }
    } else {
        st
    }
}

/// The state after reading all of `s`.
pub open spec fn strip_run(s: Seq<char>) -> Strip
    decreases s.len(),
{
    if s.len() == 0 {
        Strip { in_tag: false, in_entity: false, entity: Seq::empty(), text: Seq::empty() }
    } else {
        strip_step(strip_run(s.drop_last()), s.last())
    }
}

/// The text to display for a payload: the payload itself for source view,
/// else its text with tags dropped and entities replaced (an unknown
/// entity is kept as written; an unfinished one at the end is dropped).
pub open spec fn display_spec(body: Seq<char>, view_source: bool) -> Seq<char> {
    if view_source {
        body
    } else {
        strip_run(body).text
    }
}

fn entity_of(name: &Vec<char>) -> (r: Option<char>)
    ensures
        r == entity_spec(name@),
{
    let n = name.len();
    if n == 2 && name[0] == 'g' && name[1] == 't' {
        assert(name@ =~= seq!['g', 't']);
        return Some('>');
    }
    if n == 2 && name[0] == 'l' && name[1] == 't' {
        assert(name@ =~= seq!['l', 't']);
        return Some('<');
    }
    if n == 3 && name[0] == 'a' && name[1] == 'm' && name[2] == 'p' {
        assert(name@ =~= seq!['a', 'm', 'p']);
        return Some('&');
    }
    if n == 4 && name[0] == 'q' && name[1] == 'u' && name[2] == 'o' && name[3] == 't' {
        assert(name@ =~= seq!['q', 'u', 'o', 't']);
        return Some('"');
    }
    if n == 4 && name[0] == 'a' && name[1] == 'p' && name[2] == 'o' && name[3] == 's' {
        assert(name@ =~= seq!['a', 'p', 'o', 's']);
        return Some('\'');
    }
    proof {
        if name@ == seq!['g', 't'] || name@ == seq!['l', 't'] {
            assert(name@[0] == name[0] && name@[1] == name[1]);
        }
        if name@ == seq!['a', 'm', 'p'] {
            assert(name@[0] == name[0] && name@[1] == name[1] && name@[2] == name[2]);
        }
        if name@ == seq!['q', 'u', 'o', 't'] || name@ == seq!['a', 'p', 'o', 's'] {
            assert(name@[0] == name[0] && name@[1] == name[1] && name@[2] == name[2]
                && name@[3] == name[3]);
        }
    }
    None
}

/// The display text of a payload: returned as it is when `view_source`,
/// otherwise with tags removed and the entities `gt`, `lt`, `amp`, `quot`
/// and `apos` replaced.
pub fn parser(body: String, view_source: bool) -> (r: String)
    ensures
        r@ == display_spec(body@, view_source),
{
    if view_source {
        return body;
    }
    let cs = chars_of(body.as_str());
    let mut text = String::new();
    let mut entity: Vec<char> = Vec::new();
    let mut in_tag = false;
    let mut in_entity = false;
    let mut i: usize = 0;
    while i < cs.len()
        invariant
            i <= cs.len(),
            cs@ == body@,
            strip_run(cs@.subrange(0, i as int)) == (Strip {
                in_tag,
                in_entity,
                entity: entity@,
                text: text@,
            }),
        decreases cs.len() - i,
    {
        let c = cs[i];
        let ghost before = cs@.subrange(0, i as int);
        assert(cs@.subrange(0, i + 1).drop_last() =~= before);
        if c == '<' {
            in_tag = true;
        } else if c == '>' {
            in_tag = false;
        } else if c == '&' {
            in_entity = true;
        } else if c == ';' && in_entity {
            in_entity = false;
            match entity_of(&entity) {
                Some(x) => push_char(&mut text, x),
                None => {
                    let ghost t0 = text@;
                    push_char(&mut text, '&');
                    let mut j: usize = 0;
                    while j < entity.len()
                        invariant
                            j <= entity.len(),
                            text@ == t0 + seq!['&'] + entity@.subrange(0, j as int),
                        decreases entity.len() - j,
                    {
                        push_char(&mut text, entity[j]);
                        j += 1;
                        assert(text@ =~= t0 + seq!['&'] + entity@.subrange(0, j as int));
                    }
                    push_char(&mut text, ';');
                    assert(text@ =~= t0 + seq!['&'] + entity@ + seq![';']);
                },
            }
            entity = Vec::new();
            assert(entity@ =~= Seq::<char>::empty());
        } else if in_entity {
            entity.push(c);
        } else if !in_tag {
            push_char(&mut text, c);
        }
        i += 1;
    }
    assert(cs@.subrange(0, cs.len() as int) =~= cs@);
    text
}

/// The text to show for the payload a handler fetched.
pub fn load(handler: &URLHandler, body: String) -> (r: String)
    ensures
        r@ == display_spec(body@, handler.view_source),
{
    parser(body, handler.view_source)
}

} // verus!
