//! Display colours of languages: a table from language name to colour, the
//! neutral grey shown for a language that the table does not know, and the
//! loading of the table from raw entries.

use vstd::prelude::*;
use vstd::string::*;
use vstd::hash_map::StringHashMap;

verus! {

/// A table from language name to colour string. Its view is the map from
/// the characters of a name to the characters of its colour.
pub struct ColorMap {
    table: StringHashMap<String>,
}

impl View for ColorMap {
    type V = Map<Seq<char>, Seq<char>>;

    closed spec fn view(&self) -> Map<Seq<char>, Seq<char>> {
        Map::new(|name: Seq<char>| self.table@.contains_key(name), |name: Seq<char>| self.table@[name]@)
    }
}

/// The neutral grey drawn for a language without a colour of its own.
pub open spec fn fallback_color() -> Seq<char> {
    "#cccccc"@
}

/// The colour a language is drawn in: its colour in the table, or the
/// fallback grey where the table has none.
pub open spec fn display_color(colors: Map<Seq<char>, Seq<char>>, language: Seq<char>) -> Seq<char> {
    if colors.contains_key(language) {
        colors[language]
    } else {
        fallback_color()
    }
}

/// The table that a list of raw entries declares. The entries are read in
/// order and the last entry of a name decides: with a colour the name maps
/// to it, without one the name is left out.
pub open spec fn declared_colors(entries: Seq<(Seq<char>, Option<Seq<char>>)>) -> Map<
    Seq<char>,
    Seq<char>,
>
    decreases entries.len(),
{
    if entries.len() == 0 {
        Map::empty()
    } else {
        let earlier = declared_colors(entries.drop_last());
        match entries.last().1 {
            Some(color) => earlier.insert(entries.last().0, color),
            None => earlier.remove(entries.last().0),
        }
    }
}

/// True if no entry after position `index` has the name of the entry at
/// `index`.
pub open spec fn is_last_of_its_name(
    entries: Seq<(Seq<char>, Option<Seq<char>>)>,
    index: int,
) -> bool {
    forall|later: int| index < later < entries.len() ==> entries[later].0 != entries[index].0
}

/// What `declared_colors` holds, entry by entry: a name that no entry
/// carries is absent, and the last entry of each name decides whether the
/// name is present and with which colour.
pub proof fn lemma_declared_colors(entries: Seq<(Seq<char>, Option<Seq<char>>)>)
    ensures
        forall|name: Seq<char>|
            (forall|i: int| 0 <= i < entries.len() ==> entries[i].0 != name)
                ==> !#[trigger] declared_colors(entries).contains_key(name),
        forall|i: int|
            0 <= i < entries.len() && #[trigger] is_last_of_its_name(entries, i) ==> (
            match entries[i].1 {
                Some(color) => declared_colors(entries).contains_key(entries[i].0)
                    && declared_colors(entries)[entries[i].0] == color,
                None => !declared_colors(entries).contains_key(entries[i].0),
            }),
    decreases entries.len(),
{
    if entries.len() > 0 {
        let front = entries.drop_last();
        lemma_declared_colors(front);
        assert forall|name: Seq<char>|
            (forall|i: int| 0 <= i < entries.len() ==> entries[i].0 != name)
            implies !#[trigger] declared_colors(entries).contains_key(name) by {
            assert(entries[entries.len() - 1].0 != name);
            assert forall|i: int| 0 <= i < front.len() implies front[i].0 != name by {
                assert(front[i] == entries[i]);
            }
            assert(!declared_colors(front).contains_key(name));
        }
        assert forall|i: int|
            0 <= i < entries.len() && #[trigger] is_last_of_its_name(entries, i) implies (
        match entries[i].1 {
            Some(color) => declared_colors(entries).contains_key(entries[i].0)
                && declared_colors(entries)[entries[i].0] == color,
            None => !declared_colors(entries).contains_key(entries[i].0),
        }) by {
            if i < entries.len() - 1 {
                assert(front[i] == entries[i]);
                assert(entries[entries.len() - 1].0 != entries[i].0);
                assert(is_last_of_its_name(front, i)) by {
                    assert forall|later: int| i < later < front.len() implies front[later].0
                        != front[i].0 by {
                        assert(front[later] == entries[later]);
                    }
                }
            }
        }
    }
}

impl ColorMap {
    /// A table without any colour.
    pub fn new() -> (colors: ColorMap)
        ensures
            colors@ == Map::<Seq<char>, Seq<char>>::empty(),
    {
        let colors = ColorMap { table: StringHashMap::new() };
        assert(colors@ =~= Map::<Seq<char>, Seq<char>>::empty());
        colors
    }

    /// Gives `language` the colour `color`, in place of any it had.
    pub fn insert(&mut self, language: String, color: String)
        ensures
            final(self)@ == old(self)@.insert(language@, color@),
    {
        self.table.insert(language, color);
        assert(self@ =~= old(self)@.insert(language@, color@));
    }

    /// Takes the colour of `language` away, if it had one.
    pub fn remove(&mut self, language: &str)
        ensures
            final(self)@ == old(self)@.remove(language@),
    {
        self.table.remove(language);
        assert(self@ =~= old(self)@.remove(language@));
    }

    /// The colour of `language` in the table, if it has one.
    pub fn get(&self, language: &str) -> (found: Option<&String>)
        ensures
            found is Some <==> self@.contains_key(language@),
            found is Some ==> found->0@ == self@[language@],
    {
        self.table.get(language)
    }

    /// The colour `language` is drawn in: its own, or the fallback grey.
    pub fn color_of(&self, language: &str) -> (color: String)
        ensures
            color@ == display_color(self@, language@),
    {
        match self.table.get(language) {
            Some(own) => own.clone(),
            None => String::from_str("#cccccc"),
        }
    }
}

/// Builds the colour table from raw entries, each a language name with its
/// colour or with none. The last entry of a name decides; a name whose
/// deciding entry has no colour is not in the table.
pub fn load_language_colors(entries: &Vec<(String, Option<String>)>) -> (colors: ColorMap)
    ensures
        colors@ == declared_colors(entries.deep_view()),
        forall|name: Seq<char>|
            (forall|i: int| 0 <= i < entries.len() ==> entries[i].0@ != name)
                ==> !#[trigger] colors@.contains_key(name),
        forall|i: int|
            0 <= i < entries.len() && #[trigger] is_last_of_its_name(entries.deep_view(), i) ==> (
            match entries[i].1 {
                Some(color) => colors@.contains_key(entries[i].0@) && colors@[entries[i].0@]
                    == color@,
                None => !colors@.contains_key(entries[i].0@),
            }),
{
    let mut colors = ColorMap::new();
    let ghost model = entries.deep_view();
    for index in 0..entries.len()
        invariant
            model == entries.deep_view(),
            colors@ == declared_colors(model.take(index as int)),
    {
        let entry = &entries[index];
        proof {
            assert(model.take(index as int + 1).drop_last() =~= model.take(index as int));
            assert(model.take(index as int + 1).last() == model[index as int]);
            assert(model[index as int] == entry.deep_view());
        }
        match &entry.1 {
            Some(color) => {
                colors.insert(entry.0.clone(), color.clone());
            },
            None => {
                colors.remove(entry.0.as_str());
            },
        }
    }
    proof {
        assert(model.take(entries.len() as int) =~= model);
        lemma_declared_colors(model);
        assert forall|name: Seq<char>|
            (forall|i: int| 0 <= i < entries.len() ==> entries[i].0@ != name)
            implies !#[trigger] colors@.contains_key(name) by {
            assert forall|i: int| 0 <= i < model.len() implies model[i].0 != name by {
                assert(model[i] == entries[i].deep_view());
            }
        }
        assert forall|i: int|
            0 <= i < entries.len() && #[trigger] is_last_of_its_name(model, i) implies (
        match entries[i].1 {
            Some(color) => colors@.contains_key(entries[i].0@) && colors@[entries[i].0@]
                == color@,
            None => !colors@.contains_key(entries[i].0@),
        }) by {
            assert(model[i] == entries[i].deep_view());
        }
    }
    colors
}

} // verus!
