//! What the API server is set up with.

use crate::cli::TemplateSpec;
use crate::text::{decimal_text, same_text, write_number};
use vstd::prelude::*;

verus! {

/// The templates that are served, by language. No language is listed twice.
pub struct TemplateTable<T> {
    entries: Vec<(String, T)>,
}

impl<T> TemplateTable<T> {
    /// The template of each language.
    pub closed spec fn view(&self) -> Map<Seq<char>, T> {
        Map::new(
            |lang: Seq<char>| exists|i: int| self.lists(i, lang),
            |lang: Seq<char>| self.entries@[choose|i: int| self.lists(i, lang)].1,
        )
    }

    /// Entry `i` is that of `lang`.
    closed spec fn lists(&self, i: int, lang: Seq<char>) -> bool {
        0 <= i < self.entries@.len() && self.entries@[i].0@ == lang
    }

    /// No two entries are of one language.
    pub closed spec fn wf(&self) -> bool {
        forall|i: int, j: int, lang: Seq<char>|
            #[trigger] self.lists(i, lang) && #[trigger] self.lists(j, lang) ==> i == j
    }

    /// A table without templates.
    pub fn new() -> (table: TemplateTable<T>)
        ensures
            table.wf(),
            table.view() == Map::<Seq<char>, T>::empty(),
    {
        let table: TemplateTable<T> = TemplateTable { entries: Vec::new() };
        assert(table.view() =~= Map::<Seq<char>, T>::empty());
        table
    }

    /// The entry of a language, if it has one.
    fn find(&self, lang: &str) -> (res: Option<usize>)
        ensures
            match res {
                Some(i) => self.lists(i as int, lang@),
                None => forall|i: int| !self.lists(i, lang@),
            },
    {
        let mut i: usize = 0;
        while i < self.entries.len()
            invariant
                i <= self.entries@.len(),
                forall|k: int| 0 <= k < i ==> self.entries@[k].0@ != lang@,
            decreases self.entries@.len() - i,
        {
            if same_text(self.entries[i].0.as_str(), lang) {
                return Some(i);
            }
            i = i + 1;
        }
        None
    }

    /// Lists a template. One that was listed for the language before gives way.
    pub fn insert(&mut self, lang: String, template: T)
        requires
            old(self).wf(),
        ensures
            final(self).wf(),
            final(self).view() == old(self).view().insert(lang@, template),
    {
        let ghost name = lang@;
        let ghost before = *self;
        match self.find(lang.as_str()) {
            Some(i) => {
                self.entries[i] = (lang, template);
                proof {
                    assert forall|k: int, l: Seq<char>|
                        #[trigger] self.lists(k, l) == before.lists(k, l) by {}
                    assert(self.wf());
                    self.lemma_inserted(before, i as int, name, template);
                }
            },
            None => {
                self.entries.push((lang, template));
                proof {
                    let last = self.entries@.len() - 1;
                    assert forall|k: int, l: Seq<char>| #[trigger]
                        self.lists(k, l) == (before.lists(k, l) || (k == last && l == name)) by {}
                    assert(self.wf());
                    self.lemma_inserted(before, last, name, template);
                }
            },
        }
    }

    /// A listed entry holds the template of its language.
    proof fn lemma_listed(&self, i: int, lang: Seq<char>)
        requires
            self.wf(),
            self.lists(i, lang),
        ensures
            self.view().dom().contains(lang),
            self.view()[lang] == self.entries@[i].1,
    {
        let c = choose|c: int| self.lists(c, lang);
        assert(self.lists(c, lang));
    }

    /// A table that differs from `before` in the entry of `lang` alone differs in its template
    /// alone.
    proof fn lemma_inserted(&self, before: TemplateTable<T>, i: int, lang: Seq<char>, template: T)
        requires
            self.wf(),
            before.wf(),
            self.lists(i, lang),
            self.entries@[i].1 == template,
            forall|k: int, l: Seq<char>|
                l != lang ==> #[trigger] self.lists(k, l) == before.lists(k, l),
            forall|k: int|
                k != i && 0 <= k < before.entries@.len() ==> #[trigger] self.entries@[k]
                    == before.entries@[k],
        ensures
            self.view() == before.view().insert(lang, template),
    {
        self.lemma_listed(i, lang);
        assert forall|l: Seq<char>| l != lang implies #[trigger] self.view().dom().contains(l)
            == before.view().dom().contains(l) && (before.view().dom().contains(l)
            ==> self.view()[l] == before.view()[l]) by {
            if exists|k: int| before.lists(k, l) {
                let k = choose|k: int| before.lists(k, l);
                assert(self.lists(k, l));
                before.lemma_listed(k, l);
                self.lemma_listed(k, l);
            } else {
                assert forall|k: int| !self.lists(k, l) by {
                    assert(self.lists(k, l) == before.lists(k, l));
                }
            }
        }
        assert(self.view() =~= before.view().insert(lang, template));
    }

    /// The template of a language, if it has one.
    pub fn get(&self, lang: &str) -> (res: Option<&T>)
        requires
            self.wf(),
        ensures
            match res {
                Some(t) => self.view().dom().contains(lang@) && self.view()[lang@] == *t,
                None => !self.view().dom().contains(lang@),
            },
    {
        match self.find(lang) {
            Some(i) => {
                proof {
                    self.lemma_listed(i as int, lang@);
                }
                Some(&self.entries[i].1)
            },
            None => None,
        }
    }
}

/// What a table holds after the templates of `items` were listed in order, each for the language
/// in `langs` with the same number.
pub open spec fn listed<T>(langs: Seq<Seq<char>>, items: Seq<T>) -> Map<Seq<char>, T>
    decreases langs.len(),
{
    if langs.len() == 0 {
        Map::empty()
    } else {
        listed(langs.drop_last(), items.drop_last()).insert(langs.last(), items.last())
    }
}

/// Lists the loaded templates, each for the language of the entry that it was loaded for.
pub fn collect_templates<T>(specs: &Vec<TemplateSpec>, loaded: Vec<T>) -> (table: TemplateTable<T>)
    requires
        specs@.len() == loaded@.len(),
    ensures
        table.wf(),
        table.view() == listed(specs@.map_values(|spec: TemplateSpec| spec.lang@), loaded@),
{
    let mut table: TemplateTable<T> = TemplateTable::new();
    let mut rest: Vec<T> = loaded;
    let ghost langs = specs@.map_values(|spec: TemplateSpec| spec.lang@);
    let ghost items = rest@;
    let n: usize = specs.len();
    let mut i: usize = 0;
    while i < n
        invariant
            i <= n == specs@.len() == items.len(),
            langs == specs@.map_values(|spec: TemplateSpec| spec.lang@),
            rest@ == items.skip(i as int),
            table.wf(),
            table.view() == listed(langs.take(i as int), items.take(i as int)),
        decreases n - i,
    {
        let template: T = rest.remove(0);
        assert(rest@ =~= items.skip(i + 1));
        assert(langs.take(i + 1).drop_last() =~= langs.take(i as int));
        assert(items.take(i + 1).drop_last() =~= items.take(i as int));
        table.insert(specs[i].lang.clone(), template);
        i = i + 1;
    }
    assert(langs.take(n as int) =~= langs);
    assert(items.take(n as int) =~= items);
    table
}

/// A language is served by the last template listed for it.
pub proof fn law_last_template_serves<T>(langs: Seq<Seq<char>>, items: Seq<T>, i: int)
    requires
        langs.len() == items.len(),
        0 <= i < langs.len(),
        forall|j: int| i < j < langs.len() ==> #[trigger] langs[j] != langs[i],
    ensures
        listed(langs, items).dom().contains(langs[i]),
        listed(langs, items)[langs[i]] == items[i],
    decreases langs.len(),
{
    if i < langs.len() - 1 {
        let front = langs.drop_last();
        assert forall|j: int| i < j < front.len() implies #[trigger] front[j] != front[i] by {
            assert(langs[j] != langs[i]);
        }
        law_last_template_serves(front, items.drop_last(), i);
        assert(langs[langs.len() - 1] != langs[i]);
    }
}

/// Only the languages that a template was listed for are served.
pub proof fn law_only_listed_languages_are_served<T>(
    langs: Seq<Seq<char>>,
    items: Seq<T>,
    lang: Seq<char>,
)
    requires
        langs.len() == items.len(),
        listed(langs, items).dom().contains(lang),
    ensures
        langs.contains(lang),
    decreases langs.len(),
{
    if langs.len() > 0 {
        if langs.last() == lang {
            assert(langs[langs.len() - 1] == lang);
        } else {
            let front = langs.drop_last();
            law_only_listed_languages_are_served(front, items.drop_last(), lang);
            let k = choose|k: int| 0 <= k < front.len() && front[k] == lang;
            assert(langs[k] == lang);
        }
    }
}

/// The address that the server listens on: the local host only.
pub fn listen_address(port: u16) -> (address: String)
    ensures
        address@ == "127.0.0.1:"@ + decimal_text(port as nat),
{
    let mut address: String = "127.0.0.1:".to_owned();
    let number: String = write_number(port as u64);
    address.append(number.as_str());
    address
}

} // verus!
