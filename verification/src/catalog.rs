//! The catalog: keys, their translations per language, and the per-language listing that the
//! projection and the statistics read.
use vstd::prelude::*;
use vstd::string::*;

use swift_localizable_json_parser::types::output::PluralVariate;

use crate::text::{first_index_of, lemma_first_index_of_is, same_text};

verus! {

/// A plural category of a language.
#[derive(Clone, Copy, Debug, PartialEq, Eq, Structural)]
pub enum PluralCategory {
    Zero,
    One,
    Two,
    Few,
    Many,
    Other,
}

/// How many plural categories there are.
pub const CATEGORY_COUNT: usize = 6;

impl PluralCategory {
    /// The category at position `i` of the fixed order.
    pub open spec fn at(i: int) -> PluralCategory {
        if i <= 0 {
            PluralCategory::Zero
        } else if i == 1 {
            PluralCategory::One
        } else if i == 2 {
            PluralCategory::Two
        } else if i == 3 {
            PluralCategory::Few
        } else if i == 4 {
            PluralCategory::Many
        } else {
            PluralCategory::Other
        }
    }

    /// The position of the category in the fixed order.
    pub open spec fn position(self) -> int {
        match self {
            PluralCategory::Zero => 0,
            PluralCategory::One => 1,
            PluralCategory::Two => 2,
            PluralCategory::Few => 3,
            PluralCategory::Many => 4,
            PluralCategory::Other => 5,
        }
    }

    /// The text that stands for the category in a table cell.
    pub open spec fn label(self) -> Seq<char> {
        match self {
            PluralCategory::Zero => "Zero"@,
            PluralCategory::One => "one"@,
            PluralCategory::Two => "two"@,
            PluralCategory::Few => "few"@,
            PluralCategory::Many => "many"@,
            PluralCategory::Other => "other"@,
        }
    }

    /// The category that `text` is the label of, if it is one.
    pub open spec fn of_label(text: Seq<char>) -> Option<PluralCategory> {
        if text == "Zero"@ {
            Some(PluralCategory::Zero)
        } else if text == "one"@ {
            Some(PluralCategory::One)
        } else if text == "two"@ {
            Some(PluralCategory::Two)
        } else if text == "few"@ {
            Some(PluralCategory::Few)
        } else if text == "many"@ {
            Some(PluralCategory::Many)
        } else if text == "other"@ {
            Some(PluralCategory::Other)
        } else {
            None
        }
    }

    /// The category at position `i` of the fixed order.
    pub fn from_index(i: usize) -> (c: PluralCategory)
        requires
            i < CATEGORY_COUNT,
        ensures
            c == Self::at(i as int),
            c.position() == i,
    {
        if i == 0 {
            PluralCategory::Zero
        } else if i == 1 {
            PluralCategory::One
        } else if i == 2 {
            PluralCategory::Two
        } else if i == 3 {
            PluralCategory::Few
        } else if i == 4 {
            PluralCategory::Many
        } else {
            PluralCategory::Other
        }
    }

    /// `PluralVariate::android_key` of the catalog parser: the label of the category, which
    /// is its name in lower case, but for `Zero`, which keeps its capital.
    #[verifier::external_body]
    pub(crate) fn android_key(self) -> (r: &'static str)
        ensures
            r@ == self.label(),
    {
        let variate = match self {
            PluralCategory::Zero => PluralVariate::Zero,
            PluralCategory::One => PluralVariate::One,
            PluralCategory::Two => PluralVariate::Two,
            PluralCategory::Few => PluralVariate::Few,
            PluralCategory::Many => PluralVariate::Many,
            PluralCategory::Other => PluralVariate::Other,
        };
        variate.android_key()
    }

    /// `PluralVariate::from_android_key` of the catalog parser: the category whose label
    /// is exactly `text`, and nothing for any other text.
    #[verifier::external_body]
    pub(crate) fn from_android_key(text: &str) -> (r: Option<PluralCategory>)
        ensures
            r == Self::of_label(text@),
    {
        match PluralVariate::from_android_key(text) {
            Some(PluralVariate::Zero) => Some(PluralCategory::Zero),
            Some(PluralVariate::One) => Some(PluralCategory::One),
            Some(PluralVariate::Two) => Some(PluralCategory::Two),
            Some(PluralVariate::Few) => Some(PluralCategory::Few),
            Some(PluralVariate::Many) => Some(PluralCategory::Many),
            Some(PluralVariate::Other) => Some(PluralCategory::Other),
            None => None,
        }
    }
}

/// The six labels are six different texts, none of them the marker of an entry without
/// plural forms, so a label leads back to its category and the marker to none.
pub proof fn lemma_labels_distinct(c: PluralCategory)
    ensures
        PluralCategory::of_label(c.label()) == Some(c),
        PluralCategory::of_label(crate::NO_VARIATION@) is None,
        c.label() != crate::NO_VARIATION@,
        PluralCategory::at(c.position()) == c,
{
    reveal_strlit("Zero");
    reveal_strlit("one");
    reveal_strlit("two");
    reveal_strlit("few");
    reveal_strlit("many");
    reveal_strlit("other");
    reveal_strlit("N/A");
    assert("Zero"@[0] == 'Z');
    assert("one"@[1] == 'n');
    assert("two"@[1] == 'w');
    assert("few"@[0] == 'f');
    assert("many"@[0] == 'm');
    assert("other"@[1] == 't');
    assert("N/A"@[1] == '/');
}

/// Whether a text has been translated.
#[derive(Clone, Copy, Debug, PartialEq, Eq, Structural)]
pub enum TranslationState {
    New,
    Translated,
}

impl TranslationState {
    /// The text that stands for the state in a table cell and in a catalog file.
    pub open spec fn label(self) -> Seq<char> {
        match self {
            TranslationState::New => "new"@,
            TranslationState::Translated => "translated"@,
        }
    }

    /// `NEW_STATE` of the catalog parser, the name of the state of a text that awaits
    /// translation.
    #[verifier::external_body]
    pub(crate) fn new_state() -> (r: &'static str)
        ensures
            r@ == TranslationState::New.label(),
    {
        swift_localizable_json_parser::NEW_STATE
    }

    /// `TRANSLATED_STATE` of the catalog parser, the name of the state of a translated text.
    #[verifier::external_body]
    pub(crate) fn translated_state() -> (r: &'static str)
        ensures
            r@ == TranslationState::Translated.label(),
    {
        swift_localizable_json_parser::TRANSLATED_STATE
    }

    /// The name of the state.
    pub fn as_str(self) -> (r: &'static str)
        ensures
            r@ == self.label(),
    {
        match self {
            TranslationState::New => Self::new_state(),
            TranslationState::Translated => Self::translated_state(),
        }
    }
}

/// One text of one language, with its state.
#[derive(Debug, PartialEq, Eq)]
pub struct StringUnit {
    pub value: String,
    pub state: TranslationState,
}

/// What a `StringUnit` holds.
pub struct SpecStringUnit {
    pub value: Seq<char>,
    pub state: TranslationState,
}

impl View for StringUnit {
    type V = SpecStringUnit;

    open spec fn view(&self) -> SpecStringUnit {
        SpecStringUnit { value: self.value@, state: self.state }
    }
}

impl Clone for StringUnit {
    fn clone(&self) -> (r: Self)
        ensures
            r == *self,
    {
        StringUnit { value: self.value.clone(), state: self.state }
    }
}

/// The view of an optional unit.
pub open spec fn unit_view(unit: Option<StringUnit>) -> Option<SpecStringUnit> {
    match unit {
        Some(u) => Some(u@),
        None => None,
    }
}

/// The texts of a key in one language for the plural categories that the language uses
/// for it.
#[derive(Debug, PartialEq, Eq)]
pub struct PluralForms {
    pub zero: Option<StringUnit>,
    pub one: Option<StringUnit>,
    pub two: Option<StringUnit>,
    pub few: Option<StringUnit>,
    pub many: Option<StringUnit>,
    pub other: Option<StringUnit>,
}

/// What a `PluralForms` holds.
pub struct SpecPluralForms {
    pub zero: Option<SpecStringUnit>,
    pub one: Option<SpecStringUnit>,
    pub two: Option<SpecStringUnit>,
    pub few: Option<SpecStringUnit>,
    pub many: Option<SpecStringUnit>,
    pub other: Option<SpecStringUnit>,
}

impl SpecPluralForms {
    /// No category is present.
    pub open spec fn empty() -> SpecPluralForms {
        SpecPluralForms { zero: None, one: None, two: None, few: None, many: None, other: None }
    }

    /// The unit of `category`, if the category is present.
    pub open spec fn get(self, category: PluralCategory) -> Option<SpecStringUnit> {
        match category {
            PluralCategory::Zero => self.zero,
            PluralCategory::One => self.one,
            PluralCategory::Two => self.two,
            PluralCategory::Few => self.few,
            PluralCategory::Many => self.many,
            PluralCategory::Other => self.other,
        }
    }

    /// The forms with `unit` as the unit of `category`.
    pub open spec fn set(self, category: PluralCategory, unit: SpecStringUnit) -> SpecPluralForms {
        match category {
            PluralCategory::Zero => SpecPluralForms { zero: Some(unit), ..self },
            PluralCategory::One => SpecPluralForms { one: Some(unit), ..self },
            PluralCategory::Two => SpecPluralForms { two: Some(unit), ..self },
            PluralCategory::Few => SpecPluralForms { few: Some(unit), ..self },
            PluralCategory::Many => SpecPluralForms { many: Some(unit), ..self },
            PluralCategory::Other => SpecPluralForms { other: Some(unit), ..self },
        }
    }

    /// How many of the first `n` categories of the fixed order are present.
    pub open spec fn count_below(self, n: int) -> nat
        decreases n,
    {
        if n <= 0 {
            0
        } else {
            self.count_below(n - 1) + if self.get(PluralCategory::at(n - 1)) is Some {
                1nat
            } else {
                0nat
            }
        }
    }

    /// How many categories are present.
    pub open spec fn count(self) -> nat {
        self.count_below(CATEGORY_COUNT as int)
    }
}

impl View for PluralForms {
    type V = SpecPluralForms;

    open spec fn view(&self) -> SpecPluralForms {
        SpecPluralForms {
            zero: unit_view(self.zero),
            one: unit_view(self.one),
            two: unit_view(self.two),
            few: unit_view(self.few),
            many: unit_view(self.many),
            other: unit_view(self.other),
        }
    }
}

impl Clone for PluralForms {
    fn clone(&self) -> (r: Self)
        ensures
            r == *self,
    {
        PluralForms {
            zero: self.zero.clone(),
            one: self.one.clone(),
            two: self.two.clone(),
            few: self.few.clone(),
            many: self.many.clone(),
            other: self.other.clone(),
        }
    }
}

impl PluralForms {
    /// Forms in which no category is present.
    pub fn new() -> (r: Self)
        ensures
            r@ == SpecPluralForms::empty(),
    {
        PluralForms { zero: None, one: None, two: None, few: None, many: None, other: None }
    }

    /// The unit of `category`, if the category is present.
    pub fn get(&self, category: PluralCategory) -> (r: &Option<StringUnit>)
        ensures
            unit_view(*r) == self@.get(category),
    {
        match category {
            PluralCategory::Zero => &self.zero,
            PluralCategory::One => &self.one,
            PluralCategory::Two => &self.two,
            PluralCategory::Few => &self.few,
            PluralCategory::Many => &self.many,
            PluralCategory::Other => &self.other,
        }
    }

    /// Makes `unit` the unit of `category`, whether or not the category was present.
    pub fn set(&mut self, category: PluralCategory, unit: StringUnit)
        ensures
            final(self)@ == old(self)@.set(category, unit@),
    {
        match category {
            PluralCategory::Zero => self.zero = Some(unit),
            PluralCategory::One => self.one = Some(unit),
            PluralCategory::Two => self.two = Some(unit),
            PluralCategory::Few => self.few = Some(unit),
            PluralCategory::Many => self.many = Some(unit),
            PluralCategory::Other => self.other = Some(unit),
        }
    }

    /// How many categories are present.
    pub fn count(&self) -> (r: usize)
        ensures
            r == self@.count(),
            r <= CATEGORY_COUNT,
    {
        let mut n: usize = 0;
        let mut i: usize = 0;
        while i < CATEGORY_COUNT
            invariant
                i <= CATEGORY_COUNT,
                n <= i,
                n == self@.count_below(i as int),
            decreases CATEGORY_COUNT - i,
        {
            if self.get(PluralCategory::from_index(i)).is_some() {
                n = n + 1;
            }
            i = i + 1;
        }
        n
    }
}

/// The translation of a key in one language: one text, or one text per plural category.
#[derive(Debug, PartialEq, Eq)]
pub enum TranslationGroup {
    Simple(StringUnit),
    Pluralized(PluralForms),
}

/// What a `TranslationGroup` holds.
pub enum SpecTranslationGroup {
    Simple(SpecStringUnit),
    Pluralized(SpecPluralForms),
}

impl SpecTranslationGroup {
    /// The unit for a row of the given category, or of no category: the unit of a simple
    /// group where no category is asked for, the unit of the category in a pluralized
    /// group, and nothing where the kinds differ.
    pub open spec fn unit(self, category: Option<PluralCategory>) -> Option<SpecStringUnit> {
        match (self, category) {
            (SpecTranslationGroup::Simple(unit), None) => Some(unit),
            (SpecTranslationGroup::Pluralized(forms), Some(c)) => forms.get(c),
            _ => None,
        }
    }

    /// How many units the group holds.
    pub open spec fn unit_count(self) -> nat {
        match self {
            SpecTranslationGroup::Simple(_) => 1,
            SpecTranslationGroup::Pluralized(forms) => forms.count(),
        }
    }
}

impl View for TranslationGroup {
    type V = SpecTranslationGroup;

    open spec fn view(&self) -> SpecTranslationGroup {
        match self {
            TranslationGroup::Simple(unit) => SpecTranslationGroup::Simple(unit@),
            TranslationGroup::Pluralized(forms) => SpecTranslationGroup::Pluralized(forms@),
        }
    }
}

impl Clone for TranslationGroup {
    fn clone(&self) -> (r: Self)
        ensures
            r == *self,
    {
        match self {
            TranslationGroup::Simple(unit) => TranslationGroup::Simple(unit.clone()),
            TranslationGroup::Pluralized(forms) => TranslationGroup::Pluralized(forms.clone()),
        }
    }
}

/// The translation of one key in one language, as a catalog holds it.
#[derive(Debug, PartialEq, Eq)]
pub struct Localization {
    pub language: String,
    pub group: TranslationGroup,
}

/// What a `Localization` holds.
pub struct SpecLocalization {
    pub language: Seq<char>,
    pub group: SpecTranslationGroup,
}

impl View for Localization {
    type V = SpecLocalization;

    open spec fn view(&self) -> SpecLocalization {
        SpecLocalization { language: self.language@, group: self.group@ }
    }
}

impl Clone for Localization {
    fn clone(&self) -> (r: Self)
        ensures
            r == *self,
    {
        Localization { language: self.language.clone(), group: self.group.clone() }
    }
}

/// One key of a catalog with its comment and its translations.
#[derive(Debug, PartialEq, Eq)]
pub struct CatalogEntry {
    pub key: String,
    pub comment: String,
    pub localizations: Vec<Localization>,
}

/// What a `CatalogEntry` holds.
pub struct SpecCatalogEntry {
    pub key: Seq<char>,
    pub comment: Seq<char>,
    pub localizations: Seq<SpecLocalization>,
}

impl SpecCatalogEntry {
    /// The languages of the translations, in order.
    pub open spec fn languages(self) -> Seq<Seq<char>> {
        Seq::new(self.localizations.len(), |i: int| self.localizations[i].language)
    }

    /// Index of the translation into `language`, or the number of translations where there
    /// is none.
    pub open spec fn find(self, language: Seq<char>) -> int {
        first_index_of(self.languages(), language)
    }

    /// The translation into `language`, if there is one.
    pub open spec fn group(self, language: Seq<char>) -> Option<SpecTranslationGroup> {
        if self.find(language) < self.localizations.len() {
            Some(self.localizations[self.find(language)].group)
        } else {
            None
        }
    }
}

impl View for CatalogEntry {
    type V = SpecCatalogEntry;

    open spec fn view(&self) -> SpecCatalogEntry {
        SpecCatalogEntry {
            key: self.key@,
            comment: self.comment@,
            localizations: Seq::new(
                self.localizations@.len(),
                |i: int| self.localizations@[i]@,
            ),
        }
    }
}

impl Clone for CatalogEntry {
    fn clone(&self) -> (r: Self)
        ensures
            r@ == self@,
    {
        let r = CatalogEntry {
            key: self.key.clone(),
            comment: self.comment.clone(),
            localizations: self.localizations.clone(),
        };
        assert(r@.localizations =~= self@.localizations);
        r
    }
}

impl CatalogEntry {
    /// Index of the translation into `language`, if there is one.
    pub fn find(&self, language: &str) -> (r: Option<usize>)
        ensures
            match r {
                Some(i) => i < self.localizations.len() && i == self@.find(language@),
                None => self@.find(language@) == self.localizations.len(),
            },
    {
        let mut i: usize = 0;
        while i < self.localizations.len()
            invariant
                i <= self.localizations.len(),
                forall|j: int| 0 <= j < i ==> #[trigger] self@.languages()[j] != language@,
            decreases self.localizations.len() - i,
        {
            if same_text(self.localizations[i].language.as_str(), language) {
                proof {
                    lemma_first_index_of_is(self@.languages(), language@, i as int);
                }
                return Some(i);
            }
            i = i + 1;
        }
        proof {
            lemma_first_index_of_is(self@.languages(), language@, i as int);
        }
        None
    }
}

/// A catalog: the language its keys are written in, and its keys. Where a key stands
/// twice, the first entry is the one that counts.
#[derive(Debug, PartialEq, Eq)]
pub struct Catalog {
    pub source_language: String,
    pub entries: Vec<CatalogEntry>,
}

/// What a `Catalog` holds.
pub struct SpecCatalog {
    pub source_language: Seq<char>,
    pub entries: Seq<SpecCatalogEntry>,
}

impl SpecCatalog {
    /// The keys, in order.
    pub open spec fn keys(self) -> Seq<Seq<char>> {
        Seq::new(self.entries.len(), |i: int| self.entries[i].key)
    }

    /// Index of the entry of `key`, or the number of entries where there is none.
    pub open spec fn find(self, key: Seq<char>) -> int {
        first_index_of(self.keys(), key)
    }

    /// Whether the catalog has `key`.
    pub open spec fn has_key(self, key: Seq<char>) -> bool {
        self.find(key) < self.entries.len()
    }

    /// The translation of `key` into `language`, if the catalog has one.
    pub open spec fn group(self, key: Seq<char>, language: Seq<char>) -> Option<
        SpecTranslationGroup,
    > {
        if self.has_key(key) {
            self.entries[self.find(key)].group(language)
        } else {
            None
        }
    }

    /// The unit that `key` has in `language` for `category`, or for no category, if the
    /// catalog has one.
    pub open spec fn unit(
        self,
        key: Seq<char>,
        language: Seq<char>,
        category: Option<PluralCategory>,
    ) -> Option<SpecStringUnit> {
        match self.group(key, language) {
            Some(group) => group.unit(category),
            None => None,
        }
    }
}

impl View for Catalog {
    type V = SpecCatalog;

    open spec fn view(&self) -> SpecCatalog {
        SpecCatalog {
            source_language: self.source_language@,
            entries: Seq::new(self.entries@.len(), |i: int| self.entries@[i]@),
        }
    }
}

impl Clone for Catalog {
    fn clone(&self) -> (r: Self)
        ensures
            r@ == self@,
    {
        let r = Catalog {
            source_language: self.source_language.clone(),
            entries: self.entries.clone(),
        };
        assert(r@.entries =~= self@.entries);
        r
    }
}

impl Catalog {
    /// Index of the entry of `key`, if there is one.
    pub fn find(&self, key: &str) -> (r: Option<usize>)
        ensures
            match r {
                Some(i) => i < self.entries.len() && i == self@.find(key@),
                None => !self@.has_key(key@),
            },
    {
        let mut i: usize = 0;
        while i < self.entries.len()
            invariant
                i <= self.entries.len(),
                forall|j: int| 0 <= j < i ==> #[trigger] self@.keys()[j] != key@,
            decreases self.entries.len() - i,
        {
            if same_text(self.entries[i].key.as_str(), key) {
                proof {
                    lemma_first_index_of_is(self@.keys(), key@, i as int);
                }
                return Some(i);
            }
            i = i + 1;
        }
        proof {
            lemma_first_index_of_is(self@.keys(), key@, i as int);
        }
        None
    }
}

/// One key as one language has it: the key, its comment, and the translation.
#[derive(Debug, PartialEq, Eq)]
pub struct LocalizedEntry {
    pub key: String,
    pub comment: String,
    pub translation: TranslationGroup,
}

/// What a `LocalizedEntry` holds.
pub struct SpecLocalizedEntry {
    pub key: Seq<char>,
    pub comment: Seq<char>,
    pub translation: SpecTranslationGroup,
}

impl View for LocalizedEntry {
    type V = SpecLocalizedEntry;

    open spec fn view(&self) -> SpecLocalizedEntry {
        SpecLocalizedEntry {
            key: self.key@,
            comment: self.comment@,
            translation: self.translation@,
        }
    }
}

impl Clone for LocalizedEntry {
    fn clone(&self) -> (r: Self)
        ensures
            r == *self,
    {
        LocalizedEntry {
            key: self.key.clone(),
            comment: self.comment.clone(),
            translation: self.translation.clone(),
        }
    }
}

/// The keys of `entries`, in order.
pub open spec fn entry_keys(entries: Seq<SpecLocalizedEntry>) -> Seq<Seq<char>> {
    Seq::new(entries.len(), |i: int| entries[i].key)
}

/// Index of the first of `entries` that has `key`, or their number where none has.
pub open spec fn find_entry(entries: Seq<SpecLocalizedEntry>, key: Seq<char>) -> int {
    first_index_of(entry_keys(entries), key)
}

/// The translation that the first of `entries` with `key` holds, if one has the key.
pub open spec fn translation_of(entries: Seq<SpecLocalizedEntry>, key: Seq<char>) -> Option<
    SpecTranslationGroup,
> {
    if find_entry(entries, key) < entries.len() {
        Some(entries[find_entry(entries, key)].translation)
    } else {
        None
    }
}

/// The keys that one language has, in a fixed order, with the number of words in their
/// texts.
#[derive(Clone, Debug, PartialEq, Eq)]
pub struct LanguageView {
    pub language: String,
    pub word_count: usize,
    pub entries: Vec<LocalizedEntry>,
}

/// What a `LanguageView` holds.
pub struct SpecLanguageView {
    pub language: Seq<char>,
    pub word_count: usize,
    pub entries: Seq<SpecLocalizedEntry>,
}

impl View for LanguageView {
    type V = SpecLanguageView;

    open spec fn view(&self) -> SpecLanguageView {
        SpecLanguageView {
            language: self.language@,
            word_count: self.word_count,
            entries: Seq::new(self.entries@.len(), |i: int| self.entries@[i]@),
        }
    }
}

impl LanguageView {
    /// Index of the first entry that has `key`, if one has.
    pub fn find(&self, key: &str) -> (r: Option<usize>)
        ensures
            match r {
                Some(i) => i < self.entries.len() && i == find_entry(self@.entries, key@),
                None => find_entry(self@.entries, key@) == self.entries.len(),
            },
    {
        let mut i: usize = 0;
        while i < self.entries.len()
            invariant
                i <= self.entries.len(),
                forall|j: int| 0 <= j < i ==> #[trigger] entry_keys(self@.entries)[j] != key@,
            decreases self.entries.len() - i,
        {
            if same_text(self.entries[i].key.as_str(), key) {
                proof {
                    lemma_first_index_of_is(entry_keys(self@.entries), key@, i as int);
                }
                return Some(i);
            }
            i = i + 1;
        }
        proof {
            lemma_first_index_of_is(entry_keys(self@.entries), key@, i as int);
        }
        None
    }
}

/// A catalog seen language by language. Where a language stands twice, the first listing
/// is the one that counts.
#[derive(Clone, Debug, PartialEq, Eq)]
pub struct LocalizationView {
    pub languages: Vec<LanguageView>,
}

/// What a `LocalizationView` holds.
pub struct SpecLocalizationView {
    pub languages: Seq<SpecLanguageView>,
}

impl SpecLocalizationView {
    /// The language codes, in order.
    pub open spec fn codes(self) -> Seq<Seq<char>> {
        Seq::new(self.languages.len(), |i: int| self.languages[i].language)
    }

    /// Index of the listing of `language`, or the number of listings where there is none.
    pub open spec fn find(self, language: Seq<char>) -> int {
        first_index_of(self.codes(), language)
    }

    /// The entries of `language`: none where the language has no listing.
    pub open spec fn entries_of(self, language: Seq<char>) -> Seq<SpecLocalizedEntry> {
        if self.find(language) < self.languages.len() {
            self.languages[self.find(language)].entries
        } else {
            Seq::empty()
        }
    }
}

impl View for LocalizationView {
    type V = SpecLocalizationView;

    open spec fn view(&self) -> SpecLocalizationView {
        SpecLocalizationView {
            languages: Seq::new(self.languages@.len(), |i: int| self.languages@[i]@),
        }
    }
}

impl LocalizationView {
    /// Index of the listing of `language`, if there is one.
    pub fn find(&self, language: &str) -> (r: Option<usize>)
        ensures
            match r {
                Some(i) => i < self.languages.len() && i == self@.find(language@),
                None => self@.find(language@) == self.languages.len(),
            },
    {
        let mut i: usize = 0;
        while i < self.languages.len()
            invariant
                i <= self.languages.len(),
                forall|j: int| 0 <= j < i ==> #[trigger] self@.codes()[j] != language@,
            decreases self.languages.len() - i,
        {
            if same_text(self.languages[i].language.as_str(), language) {
                proof {
                    lemma_first_index_of_is(self@.codes(), language@, i as int);
                }
                return Some(i);
            }
            i = i + 1;
        }
        proof {
            lemma_first_index_of_is(self@.codes(), language@, i as int);
        }
        None
    }
}

/// A catalog together with its per-language listing.
#[derive(Clone, Debug, PartialEq, Eq)]
pub struct Parsed {
    pub catalog: Catalog,
    pub localized: LocalizationView,
}

/// What a `Parsed` holds.
pub struct SpecParsed {
    pub catalog: SpecCatalog,
    pub localized: SpecLocalizationView,
}

impl View for Parsed {
    type V = SpecParsed;

    open spec fn view(&self) -> SpecParsed {
        SpecParsed { catalog: self.catalog@, localized: self.localized@ }
    }
}

} // verus!
