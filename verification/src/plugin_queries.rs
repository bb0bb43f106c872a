//! The tree-sitter queries of an extension's language: each `.scm` file of
//! the language's directory adds its text to the query its name starts
//! with.
use vstd::prelude::*;
use crate::text::{chars_end_with, chars_of, chars_start_with, chars_concat, has_prefix, has_suffix, string_of, strings_view};

verus! {

/// The query a file holds: for a `.scm` file, the first of the query names
/// that its name starts with; none otherwise.
pub open spec fn query_slot_of(file_name: Seq<char>, names: Seq<Seq<char>>) -> Option<int> {
    if !has_suffix(file_name, ".scm"@) {
        None
    } else {
        first_prefix(file_name, names, 0)
    }
}

/// The first of the names, from position `from` on, that `s` starts with.
pub open spec fn first_prefix(s: Seq<char>, names: Seq<Seq<char>>, from: int) -> Option<int>
    decreases names.len() - from,
{
    if from < 0 || from >= names.len() {
        None
    } else if has_prefix(s, names[from]) {
        Some(from)
    } else {
        first_prefix(s, names, from + 1)
    }
}

/// The query a file holds, as `query_slot_of` says.
pub fn query_slot(file_name: &str, query_names: &Vec<String>) -> (r: Option<usize>)
    ensures
        match r {
            Some(i) => query_slot_of(file_name@, strings_view(query_names@)) == Some(i as int),
            None => query_slot_of(file_name@, strings_view(query_names@)) is None,
        },
{
    let name = chars_of(file_name);
    let scm = chars_of(".scm");
    if !chars_end_with(name.as_slice(), scm.as_slice()) {
        return None;
    }
    let ghost nv = strings_view(query_names@);
    let mut i: usize = 0;
    while i < query_names.len()
        invariant
            nv == strings_view(query_names@),
            name@ == file_name@,
            has_suffix(file_name@, ".scm"@),
            i <= nv.len(),
            first_prefix(file_name@, nv, 0) == first_prefix(file_name@, nv, i as int),
        decreases nv.len() - i,
    {
        let prefix = chars_of(query_names[i].as_str());
        if chars_start_with(name.as_slice(), prefix.as_slice()) {
            return Some(i);
        }
        i = i + 1;
    }
    None
}

/// The queries after adding each file's text, in order, to the query it
/// holds: a query with no text yet takes the file's text, one with text
/// gets it appended.
pub open spec fn queries_after(
    files: Seq<(Seq<char>, Seq<char>)>,
    names: Seq<Seq<char>>,
) -> Seq<Option<Seq<char>>>
    decreases files.len(),
{
    if files.len() == 0 {
        Seq::new(names.len(), |i: int| None::<Seq<char>>)
    } else {
        let q = queries_after(files.drop_last(), names);
        let f = files.last();
        match query_slot_of(f.0, names) {
            None => q,
            Some(i) => q.update(
                i,
                match q[i] {
                    None => Some(f.1),
                    Some(t) => Some(t + f.1),
                },
            ),
        }
    }
}

/// The files as plain values.
pub open spec fn files_view(files: Seq<(String, String)>) -> Seq<(Seq<char>, Seq<char>)> {
    files.map_values(|f: (String, String)| (f.0@, f.1@))
}

/// Optional texts as plain values.
pub open spec fn opt_texts_view(v: Seq<Option<String>>) -> Seq<Option<Seq<char>>> {
    v.map_values(|o: Option<String>| match o {
        Some(t) => Some(t@),
        None => None,
    })
}

proof fn lemma_first_prefix_bounds(s: Seq<char>, names: Seq<Seq<char>>, from: int)
    ensures
        first_prefix(s, names, from) matches Some(i) ==> 0 <= i < names.len(),
    decreases names.len() - from,
{
    if 0 <= from < names.len() && !has_prefix(s, names[from]) {
        lemma_first_prefix_bounds(s, names, from + 1);
    }
}

proof fn lemma_queries_len(files: Seq<(Seq<char>, Seq<char>)>, names: Seq<Seq<char>>)
    ensures
        queries_after(files, names).len() == names.len(),
    decreases files.len(),
{
    if files.len() > 0 {
        lemma_queries_len(files.drop_last(), names);
        lemma_first_prefix_bounds(files.last().0, names, 0);
    }
}

/// The queries of a language directory from its files (name and text, in
/// the order they were read), as `queries_after` says.
pub fn load_plugin_queries(files: &Vec<(String, String)>, query_names: &Vec<String>) -> (r: Vec<Option<String>>)
    ensures
        opt_texts_view(r@) == queries_after(files_view(files@), strings_view(query_names@)),
{
    let ghost nv = strings_view(query_names@);
    let ghost fv = files_view(files@);
    let mut result: Vec<Option<String>> = Vec::new();
    let mut k: usize = 0;
    while k < query_names.len()
        invariant
            k <= query_names@.len(),
            result@.len() == k,
            forall|j: int| 0 <= j < k ==> (#[trigger] result@[j]) is None,
        decreases query_names@.len() - k,
    {
        result.push(None);
        k = k + 1;
    }
    assert(opt_texts_view(result@) =~= queries_after(fv.take(0), nv));
    let mut i: usize = 0;
    while i < files.len()
        invariant
            nv == strings_view(query_names@),
            fv == files_view(files@),
            i <= fv.len(),
            opt_texts_view(result@) == queries_after(fv.take(i as int), nv),
        decreases fv.len() - i,
    {
        proof {
            assert(fv.take(i + 1).drop_last() =~= fv.take(i as int));
            assert(fv[i as int] == (files@[i as int].0@, files@[i as int].1@));
            lemma_queries_len(fv.take(i as int), nv);
        }
        let slot = query_slot(files[i].0.as_str(), query_names);
        if let Some(s) = slot {
            proof {
                lemma_first_prefix_bounds(files@[i as int].0@, nv, 0);
            }
            let ghost before = opt_texts_view(result@);
            let text = match &result[s] {
                None => string_of(chars_of(files[i].1.as_str()).as_slice()),
                Some(t) => {
                    let joined = chars_concat(chars_of(t.as_str()).as_slice(), chars_of(files[i].1.as_str()).as_slice());
                    string_of(joined.as_slice())
                },
            };
            result.set(s, Some(text));
            proof {
                assert(opt_texts_view(result@) =~= before.update(
                    s as int,
                    match before[s as int] {
                        None => Some(fv[i as int].1),
                        Some(t) => Some(t + fv[i as int].1),
                    },
                ));
            }
        }
        i = i + 1;
    }
    proof {
        assert(fv.take(fv.len() as int) =~= fv);
    }
    result
}

} // verus!
