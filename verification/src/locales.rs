//! Message localization: flat key-to-text tables per locale.
//!
//! The tables are handed in as plain entries (the surrounding program reads
//! and flattens the locale files); lookup, the default-locale rule, and the
//! reload decision are verified here.

use vstd::prelude::*;

verus! {

/// A failure to load or use a locale.
#[derive(Debug)]
pub enum LocaleError {
    LoadError(String),
    ParseError(String),
    LocaleNotFound(String),
}

/// One locale's flattened translations: dotted keys to text.
pub struct LocaleTable {
    pub locale: String,
    pub entries: Vec<(String, String)>,
}

/// The first value bound to `key` in an association list.
pub open spec fn assoc_get(s: Seq<(String, String)>, key: Seq<char>) -> Option<String>
    decreases s.len(),
{
    if s.len() == 0 {
        None
    } else if s[0].0@ == key {
        Some(s[0].1)
    } else {
        assoc_get(s.drop_first(), key)
    }
}

/// The first table for `locale`, if any.
pub open spec fn table_find(s: Seq<LocaleTable>, locale: Seq<char>) -> Option<LocaleTable>
    decreases s.len(),
{
    if s.len() == 0 {
        None
    } else if s[0].locale@ == locale {
        Some(s[0])
    } else {
        table_find(s.drop_first(), locale)
    }
}

/// The localization store: per-locale tables and the default locale.
pub struct Locales {
    pub tables: Vec<LocaleTable>,
    pub default_locale: String,
}

impl Locales {
    /// Build a store over the given tables; the default locale starts empty
    /// and is chosen with `set_default`.
    pub fn new(tables: Vec<LocaleTable>) -> (r: Locales)
        ensures
            r.tables == tables,
            r.default_locale@ == Seq::<char>::empty(),
    {
        Locales { tables, default_locale: String::new() }
    }

    /// Whether a table for `locale` is loaded.
    pub open spec fn has_locale(self, locale: Seq<char>) -> bool {
        table_find(self.tables@, locale) is Some
    }

    /// The translation of `key` in `locale`, if both exist.
    pub open spec fn spec_translate(self, locale: Seq<char>, key: Seq<char>) -> Option<String> {
        match table_find(self.tables@, locale) {
            Some(tab) => assoc_get(tab.entries@, key),
            None => None,
        }
    }

    /// Find the first table for `locale`.
    fn find_table(&self, locale: &String) -> (r: Option<usize>)
        ensures
            match r {
                Some(i) => i < self.tables.len() && table_find(self.tables@, locale@) == Some(
                    self.tables@[i as int],
                ),
                None => !self.has_locale(locale@),
            },
    {
        let mut i: usize = 0;
        proof {
            assert(self.tables@.skip(0) =~= self.tables@);
        }
        while i < self.tables.len()
            invariant
                i <= self.tables.len(),
                table_find(self.tables@, locale@) == table_find(
                    self.tables@.skip(i as int),
                    locale@,
                ),
            decreases self.tables.len() - i,
        {
            proof {
                assert(self.tables@.skip(i as int)[0] == self.tables@[i as int]);
            }
            if self.tables[i].locale == *locale {
                return Some(i);
            }
            proof {
                assert(self.tables@.skip(i as int).drop_first() =~= self.tables@.skip(
                    i as int + 1,
                ));
            }
            i = i + 1;
        }
        proof {
            assert(self.tables@.skip(self.tables.len() as int) =~= Seq::<LocaleTable>::empty());
        }
        None
    }

    /// Choose the default locale; exactly the loaded locales are accepted,
    /// an unknown one is reported as not found.
    pub fn set_default(&mut self, locale: &String) -> (r: Result<(), LocaleError>)
        ensures
            r is Ok <==> old(self).has_locale(locale@),
            final(self).tables == old(self).tables,
            r is Ok ==> final(self).default_locale@ == locale@,
            r is Err ==> final(self).default_locale == old(self).default_locale,
            r is Err ==> (r.unwrap_err() matches LocaleError::LocaleNotFound(m) && m@ == locale@),
    {
        match self.find_table(locale) {
            Some(_) => {
                self.default_locale = clone_string(locale);
                Ok(())
            },
            None => Err(LocaleError::LocaleNotFound(clone_string(locale))),
        }
    }

    /// Translate `key` in `locale`: the stored text, exactly when the locale
    /// is loaded and the key is present; otherwise the name of what is
    /// missing.
    pub fn translate(&self, locale: &String, key: &String) -> (r: Result<String, LocaleError>)
        ensures
            match r {
                Ok(v) => self.spec_translate(locale@, key@) is Some && self.spec_translate(
                    locale@,
                    key@,
                ).unwrap()@ == v@,
                Err(_) => self.spec_translate(locale@, key@) is None,
            },
    {
        match self.find_table(locale) {
            Some(i) => {
                let table = &self.tables[i];
                let mut k: usize = 0;
                proof {
                    assert(table.entries@.skip(0) =~= table.entries@);
                }
                while k < table.entries.len()
                    invariant
                        k <= table.entries.len(),
                        i < self.tables.len(),
                        table_find(self.tables@, locale@) == Some(self.tables@[i as int]),
                        *table == self.tables@[i as int],
                        assoc_get(table.entries@, key@) == assoc_get(
                            table.entries@.skip(k as int),
                            key@,
                        ),
                    decreases table.entries.len() - k,
                {
                    proof {
                        assert(table.entries@.skip(k as int)[0] == table.entries@[k as int]);
                    }
                    if table.entries[k].0 == *key {
                        let v = clone_string(&table.entries[k].1);
                        proof {
                            assert(table.entries@.skip(k as int)[0].0@ == key@);
                            assert(assoc_get(table.entries@.skip(k as int), key@) == Some(
                                table.entries@[k as int].1,
                            ));
                            assert(table_find(self.tables@, locale@) == Some(
                                self.tables@[i as int],
                            ));
                            assert(self.tables@[i as int].entries@ == table.entries@);
                            assert(self.spec_translate(locale@, key@) == assoc_get(
                                self.tables@[i as int].entries@,
                                key@,
                            ));
                            assert(self.spec_translate(locale@, key@) == Some(
                                table.entries@[k as int].1,
                            ));
                        }
                        return Ok(v);
                    }
                    proof {
                        assert(table.entries@.skip(k as int).drop_first() =~= table.entries@.skip(
                            k as int + 1,
                        ));
                    }
                    k = k + 1;
                }
                proof {
                    assert(table.entries@.skip(table.entries.len() as int) =~= Seq::<
                        (String, String),
                    >::empty());
                }
                Err(LocaleError::LocaleNotFound(clone_string(key)))
            },
            None => Err(LocaleError::LocaleNotFound(clone_string(locale))),
        }
    }

    /// Translate `key` in the default locale, falling back to the key itself
    /// when no translation exists.
    pub fn t(&self, key: &String) -> (r: String)
        ensures
            match self.spec_translate(self.default_locale@, key@) {
                Some(v) => r@ == v@,
                None => r@ == key@,
            },
    {
        let def = clone_string(&self.default_locale);
        match self.translate(&def, key) {
            Ok(v) => v,
            Err(_) => clone_string(key),
        }
    }
}

/// Whether a locale file must be re-read: it was never loaded, or it changed
/// on disk since it was (a newer modification timestamp).
pub fn reload_needed(last_loaded: Option<u64>, current_timestamp: u64) -> (r: bool)
    ensures
        r == match last_loaded {
            Some(t) => t < current_timestamp,
            None => true,
        },
{
    match last_loaded {
        Some(t) => t < current_timestamp,
        None => true,
    }
}

/// Copy a string.
pub fn clone_string(s: &String) -> (r: String)
    ensures
        r@ == s@,
{
    s.clone()
}

} // verus!
