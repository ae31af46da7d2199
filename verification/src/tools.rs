//! What the coding tools contribute to the system prompt.

use vstd::prelude::*;
use crate::assoc::{insert_str, keyed, put_keyed, sorted_insert, str_pairs};
use crate::system_prompt::{guideline_pairs, sv};
use crate::text::to_string;

verus! {

/// A tool's name, its one-line prompt snippet if it has one, and its
/// prompt guidelines.
pub struct ToolPrompt {
    pub name: String,
    pub snippet: Option<String>,
    pub guidelines: Vec<String>,
}

/// Snippets by tool name; a later tool of the same name wins.
pub open spec fn snippets_spec(t: Seq<ToolPrompt>) -> Seq<(Seq<char>, Seq<char>)>
    decreases t.len(),
{
    if t.len() == 0 {
        Seq::empty()
    } else {
        let prev = snippets_spec(t.drop_last());
        match t.last().snippet {
            Some(s) => sorted_insert(prev, t.last().name@, s@),
            None => prev,
        }
    }
}

/// Non-empty guideline lists by tool name; a later tool of the same name
/// wins.
pub open spec fn guidelines_spec(t: Seq<ToolPrompt>) -> Seq<(Seq<char>, Seq<Seq<char>>)>
    decreases t.len(),
{
    if t.len() == 0 {
        Seq::empty()
    } else {
        let prev = guidelines_spec(t.drop_last());
        if t.last().guidelines@.len() > 0 {
            sorted_insert(prev, t.last().name@, sv(t.last().guidelines@))
        } else {
            prev
        }
    }
}

pub open spec fn gview(p: (Seq<char>, Vec<String>)) -> (Seq<char>, Seq<Seq<char>>) {
    (p.0, sv(p.1@))
}

proof fn lemma_insert_views(s: Seq<(Seq<char>, Vec<String>)>, k: Seq<char>, v: Vec<String>)
    ensures
        sorted_insert(s, k, v).map_values(|p: (Seq<char>, Vec<String>)| gview(p)) == sorted_insert(
            s.map_values(|p: (Seq<char>, Vec<String>)| gview(p)),
            k,
            sv(v@),
        ),
    decreases s.len(),
{
    let ms = s.map_values(|p: (Seq<char>, Vec<String>)| gview(p));
    if s.len() == 0 {
        assert(sorted_insert(s, k, v).map_values(|p: (Seq<char>, Vec<String>)| gview(p)) =~= seq![(k, sv(v@))]);
    } else if s[0].0 == k {
        assert(sorted_insert(s, k, v).map_values(|p: (Seq<char>, Vec<String>)| gview(p)) =~= ms.update(
            0,
            (k, sv(v@)),
        ));
    } else if crate::text::lex_lt(k, s[0].0) {
        assert(sorted_insert(s, k, v).map_values(|p: (Seq<char>, Vec<String>)| gview(p)) =~= seq![(k, sv(v@))]
            + ms);
    } else {
        lemma_insert_views(s.drop_first(), k, v);
        assert(s.drop_first().map_values(|p: (Seq<char>, Vec<String>)| gview(p)) =~= ms.drop_first());
        assert(sorted_insert(s, k, v).map_values(|p: (Seq<char>, Vec<String>)| gview(p)) =~= seq![ms[0]]
            + sorted_insert(ms.drop_first(), k, sv(v@)));
    }
}

fn copy_strings(v: &Vec<String>) -> (r: Vec<String>)
    ensures
        sv(r@) == sv(v@),
{
    let mut out: Vec<String> = Vec::new();
    let mut i: usize = 0;
    while i < v.len()
        invariant
            i <= v@.len(),
            out@.len() == i,
            forall|j: int| 0 <= j < i ==> #[trigger] out@[j]@ == v@[j]@,
        decreases v.len() - i,
    {
        out.push(to_string(v[i].as_str()));
        i += 1;
    }
    assert(sv(out@) =~= sv(v@));
    out
}

/// The snippets and guidelines of `tools`, keyed by tool name.
pub fn collect_prompt_contributions(tools: &Vec<ToolPrompt>) -> (r: (Vec<(String, String)>, Vec<(String, Vec<String>)>))
    ensures
        str_pairs(r.0@) == snippets_spec(tools@),
        guideline_pairs(r.1@) == guidelines_spec(tools@),
{
    let mut snippets: Vec<(String, String)> = Vec::new();
    let mut guidelines: Vec<(String, Vec<String>)> = Vec::new();
    let mut i: usize = 0;
    assert(str_pairs(snippets@) =~= Seq::<(Seq<char>, Seq<char>)>::empty());
    assert(guideline_pairs(guidelines@) =~= Seq::<(Seq<char>, Seq<Seq<char>>)>::empty());
    while i < tools.len()
        invariant
            i <= tools@.len(),
            str_pairs(snippets@) == snippets_spec(tools@.take(i as int)),
            guideline_pairs(guidelines@) == guidelines_spec(tools@.take(i as int)),
        decreases tools.len() - i,
    {
        proof {
            assert(tools@.take(i + 1).drop_last() =~= tools@.take(i as int));
            assert(tools@.take(i + 1).last() == tools@[i as int]);
        }
        let t = &tools[i];
        match &t.snippet {
            Some(s) => {
                insert_str(&mut snippets, to_string(t.name.as_str()), to_string(s.as_str()));
            },
            None => {},
        }
        if t.guidelines.len() > 0 {
            let ghost before = guidelines@;
            let g = copy_strings(&t.guidelines);
            put_keyed(&mut guidelines, to_string(t.name.as_str()), g);
            proof {
                lemma_insert_views(keyed(before), t.name@, g);
                assert(guideline_pairs(before) =~= keyed(before).map_values(
                    |p: (Seq<char>, Vec<String>)| gview(p),
                ));
                assert(guideline_pairs(guidelines@) =~= keyed(guidelines@).map_values(
                    |p: (Seq<char>, Vec<String>)| gview(p),
                ));
            }
        }
        i += 1;
    }
    assert(tools@.take(tools@.len() as int) =~= tools@);
    (snippets, guidelines)
}

} // verus!
