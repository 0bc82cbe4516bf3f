//! Language filtering over catalog entries whose titles and descriptions
//! are localized per language, and the fixed catalog samples used by the
//! demo endpoints.
use vstd::prelude::*;
use crate::text::chars_of;
use crate::text::contains_chars;
use crate::text::contains_sub;
use crate::text::lower_of;
use crate::text::lowercase;
use crate::text::str_eq;

verus! {

/// One localized text entry: a language code and the text in that language.
pub struct LangText {
    pub lang: String,
    pub text: String,
}

/// The mathematical value of a localized entry.
pub ghost struct LangTextV {
    pub lang: Seq<char>,
    pub text: Seq<char>,
}

impl View for LangText {
    type V = LangTextV;

    open spec fn view(&self) -> LangTextV {
        LangTextV { lang: self.lang@, text: self.text@ }
    }
}

impl Clone for LangText {
    fn clone(&self) -> (res: Self)
        ensures
            res@ == self@,
    {
        LangText { lang: self.lang.clone(), text: self.text.clone() }
    }
}

/// A catalog entry as the demo search endpoint serves it.
pub struct DemoManga {
    pub id: String,
    pub title: Vec<LangText>,
    pub description: Vec<LangText>,
    pub original_language: Option<String>,
}

/// The mathematical value of a catalog entry.
pub ghost struct DemoMangaV {
    pub id: Seq<char>,
    pub title: Seq<LangTextV>,
    pub description: Seq<LangTextV>,
    pub original_language: Option<Seq<char>>,
}

impl View for DemoManga {
    type V = DemoMangaV;

    open spec fn view(&self) -> DemoMangaV {
        DemoMangaV {
            id: self.id@,
            title: self.title@.map_values(|t: LangText| t@),
            description: self.description@.map_values(|t: LangText| t@),
            original_language: match self.original_language {
                Some(l) => Some(l@),
                None => None,
            },
        }
    }
}

impl Clone for DemoManga {
    fn clone(&self) -> (res: Self)
        ensures
            res@ == self@,
    {
        let res = DemoManga {
            id: self.id.clone(),
            title: clone_lang_texts(&self.title),
            description: clone_lang_texts(&self.description),
            original_language: match &self.original_language {
                Some(l) => Some(l.clone()),
                None => None,
            },
        };
        proof {
            assert(res@.title =~= self@.title);
            assert(res@.description =~= self@.description);
        }
        res
    }
}

fn clone_lang_texts(v: &Vec<LangText>) -> (r: Vec<LangText>)
    ensures
        r@.map_values(|t: LangText| t@) == v@.map_values(|t: LangText| t@),
{
    let mut r: Vec<LangText> = Vec::new();
    let mut i: usize = 0;
    while i < v.len()
        invariant
            i <= v.len(),
            r@.len() == i,
            forall|k: int| 0 <= k < i ==> r@[k]@ == v@[k]@,
        decreases v.len() - i,
    {
        r.push(v[i].clone());
        i = i + 1;
    }
    proof {
        assert(r@.map_values(|t: LangText| t@) =~= v@.map_values(|t: LangText| t@));
    }
    r
}

/// True when some entry carries the given language code.
pub open spec fn has_lang(entries: Seq<LangTextV>, lang: Seq<char>) -> bool {
    exists|i: int| 0 <= i < entries.len() && entries[i].lang == lang
}

/// True when the entry offers an English title, an English description, or
/// names English as its original language.
pub open spec fn spec_english(m: DemoMangaV) -> bool {
    ||| has_lang(m.title, "en"@)
    ||| has_lang(m.description, "en"@)
    ||| (m.original_language matches Some(l) && l == "en"@)
}

fn entries_have_lang(entries: &Vec<LangText>, lang: &str) -> (r: bool)
    ensures
        r == has_lang(entries@.map_values(|t: LangText| t@), lang@),
{
    let ghost views = entries@.map_values(|t: LangText| t@);
    let mut i: usize = 0;
    while i < entries.len()
        invariant
            views == entries@.map_values(|t: LangText| t@),
            i <= entries.len(),
            forall|k: int| 0 <= k < i ==> views[k].lang != lang@,
        decreases entries.len() - i,
    {
        if str_eq(entries[i].lang.as_str(), lang) {
            proof {
                assert(views[i as int].lang == lang@);
            }
            return true;
        }
        i = i + 1;
    }
    false
}

/// Decides whether the entry has any English content.
pub fn has_english_content(manga: &DemoManga) -> (r: bool)
    ensures
        r == spec_english(manga@),
{
    if entries_have_lang(&manga.title, "en") {
        return true;
    }
    if entries_have_lang(&manga.description, "en") {
        return true;
    }
    match &manga.original_language {
        Some(l) => str_eq(l.as_str(), "en"),
        None => false,
    }
}

/// The subsequence of `s` whose entries' English-ness equals `want`,
/// in their original order.
pub open spec fn filter_by_english(s: Seq<DemoMangaV>, want: bool) -> Seq<DemoMangaV>
    decreases s.len(),
{
    if s.len() == 0 {
        Seq::empty()
    } else {
        filter_by_english(s.drop_last(), want) + (if spec_english(s.last()) == want {
            seq![s.last()]
        } else {
            Seq::empty()
        })
    }
}

/// Splits a catalog into the entries with English content and those
/// without, each side keeping its original order.
pub fn filter_manga_by_language(manga_list: &Vec<DemoManga>) -> (r: (
    Vec<DemoManga>,
    Vec<DemoManga>,
))
    ensures
        r.0@.map_values(|m: DemoManga| m@) == filter_by_english(
            manga_list@.map_values(|m: DemoManga| m@),
            true,
        ),
        r.1@.map_values(|m: DemoManga| m@) == filter_by_english(
            manga_list@.map_values(|m: DemoManga| m@),
            false,
        ),
{
    let ghost views = manga_list@.map_values(|m: DemoManga| m@);
    let mut english: Vec<DemoManga> = Vec::new();
    let mut other: Vec<DemoManga> = Vec::new();
    let mut i: usize = 0;
    proof {
        assert(views.take(0) =~= Seq::<DemoMangaV>::empty());
    }
    while i < manga_list.len()
        invariant
            views == manga_list@.map_values(|m: DemoManga| m@),
            i <= manga_list.len(),
            english@.map_values(|m: DemoManga| m@) == filter_by_english(views.take(i as int), true),
            other@.map_values(|m: DemoManga| m@) == filter_by_english(views.take(i as int), false),
        decreases manga_list.len() - i,
    {
        let m = &manga_list[i];
        if has_english_content(m) {
            english.push(m.clone());
        } else {
            other.push(m.clone());
        }
        i = i + 1;
        proof {
            assert(views.take(i as int).drop_last() =~= views.take(i - 1));
            assert(views.take(i as int).last() == views[i - 1]);
            assert(english@.map_values(|m2: DemoManga| m2@) =~= filter_by_english(
                views.take(i as int),
                true,
            ));
            assert(other@.map_values(|m2: DemoManga| m2@) =~= filter_by_english(
                views.take(i as int),
                false,
            ));
        }
    }
    proof {
        assert(views.take(manga_list@.len() as int) =~= views);
    }
    (english, other)
}

/// True when some localized title of the entry holds the term as a
/// case-insensitive substring.
pub open spec fn spec_title_contains(m: DemoMangaV, term: Seq<char>) -> bool {
    exists|i: int|
        0 <= i < m.title.len() && contains_sub(lower_of(m.title[i].text), lower_of(term))
}

/// Decides whether any localized title of the entry holds the term,
/// case-insensitively.
#[verifier::loop_isolation(false)]
pub fn demo_title_contains(manga: &DemoManga, term: &str) -> (r: bool)
    ensures
        r == spec_title_contains(manga@, term@),
{
    let ghost views = manga.title@.map_values(|t: LangText| t@);
    let needle_s = lowercase(term);
    let needle = chars_of(needle_s.as_str());
    let mut i: usize = 0;
    while i < manga.title.len()
        invariant
            views == manga.title@.map_values(|t: LangText| t@),
            needle@ == lower_of(term@),
            i <= manga.title.len(),
            forall|j: int|
                0 <= j < i ==> !contains_sub(lower_of((#[trigger] views[j]).text), lower_of(term@)),
        decreases manga.title.len() - i,
    {
        let hay_s = lowercase(manga.title[i].text.as_str());
        let hay = chars_of(hay_s.as_str());
        if contains_chars(&hay, &needle) {
            proof {
                assert(contains_sub(lower_of(manga@.title[i as int].text), lower_of(term@)));
            }
            return true;
        }
        i = i + 1;
    }
    false
}


fn lang_entry(lang: &str, text: &str) -> (r: LangText)
    ensures
        r@.lang == lang@,
        r@.text == text@,
{
    LangText { lang: String::from_str(lang), text: String::from_str(text) }
}

/// A fixed three-entry catalog for the demo search endpoint: two entries
/// with English content and one without.
pub fn create_demo_data() -> (r: Vec<DemoManga>)
    ensures
        r@.len() == 3,
        spec_english(r@[0]@),
        !spec_english(r@[1]@),
        spec_english(r@[2]@),
{
    let mut naruto_title: Vec<LangText> = Vec::new();
    naruto_title.push(lang_entry("en", "Naruto"));
    naruto_title.push(lang_entry("ja", "NARUTO"));
    let mut naruto_desc: Vec<LangText> = Vec::new();
    naruto_desc.push(lang_entry("en", "A ninja story about Naruto Uzumaki"));
    let first = DemoManga {
        id: String::from_str("1"),
        title: naruto_title,
        description: naruto_desc,
        original_language: Some(String::from_str("ja")),
    };

    let mut solo_title: Vec<LangText> = Vec::new();
    solo_title.push(lang_entry("ko", "Solo Leveling"));
    let mut solo_desc: Vec<LangText> = Vec::new();
    solo_desc.push(lang_entry("ko", "Korean manhwa"));
    let second = DemoManga {
        id: String::from_str("2"),
        title: solo_title,
        description: solo_desc,
        original_language: Some(String::from_str("ko")),
    };

    let mut piece_title: Vec<LangText> = Vec::new();
    piece_title.push(lang_entry("en", "One Piece"));
    piece_title.push(lang_entry("ja", "ONE PIECE"));
    let mut piece_desc: Vec<LangText> = Vec::new();
    piece_desc.push(lang_entry("en", "Pirate adventure manga"));
    let third = DemoManga {
        id: String::from_str("3"),
        title: piece_title,
        description: piece_desc,
        original_language: Some(String::from_str("ja")),
    };

    proof {
        reveal_strlit("ko");
        reveal_strlit("en");
        assert(first@.title[0].lang == "en"@);
        assert(third@.title[0].lang == "en"@);
        assert(second@.title.len() == 1);
        assert(second@.description.len() == 1);
        assert("ko"@[0] != "en"@[0]);
        assert("ko"@ != "en"@);
        assert(second@.title[0].lang == "ko"@);
        assert(second@.description[0].lang == "ko"@);
        assert(second@.original_language matches Some(l) && l == "ko"@);
    }

    let mut r: Vec<DemoManga> = Vec::new();
    r.push(first);
    r.push(second);
    r.push(third);
    r
}

/// A catalog entry in the shape the upstream catalog API returns.
pub struct MockMangaData {
    pub id: String,
    pub item_type: String,
    pub attributes: MockMangaAttributes,
}

/// The attributes of an upstream catalog entry.
pub struct MockMangaAttributes {
    pub title: Vec<LangText>,
    pub description: Vec<LangText>,
    pub status: String,
    pub original_language: Option<String>,
}

/// A fixed three-entry upstream catalog sample: entries one and three carry
/// English titles, entry two is Korean only.
pub fn create_mock_manga_data() -> (r: Vec<MockMangaData>)
    ensures
        r@.len() == 3,
        r@[0].id@ == "1"@,
        r@[1].id@ == "2"@,
        r@[2].id@ == "3"@,
        has_lang(r@[0].attributes.title@.map_values(|t: LangText| t@), "en"@),
        !has_lang(r@[1].attributes.title@.map_values(|t: LangText| t@), "en"@),
        has_lang(r@[2].attributes.title@.map_values(|t: LangText| t@), "en"@),
{
    let mut naruto_title: Vec<LangText> = Vec::new();
    naruto_title.push(lang_entry("en", "Naruto"));
    naruto_title.push(lang_entry("ja", "NARUTO"));
    let mut naruto_desc: Vec<LangText> = Vec::new();
    naruto_desc.push(lang_entry("en", "A ninja story"));
    let first = MockMangaData {
        id: String::from_str("1"),
        item_type: String::from_str("manga"),
        attributes: MockMangaAttributes {
            title: naruto_title,
            description: naruto_desc,
            status: String::from_str("completed"),
            original_language: Some(String::from_str("ja")),
        },
    };

    let mut solo_title: Vec<LangText> = Vec::new();
    solo_title.push(lang_entry("ko", "Solo Leveling"));
    let mut solo_desc: Vec<LangText> = Vec::new();
    solo_desc.push(lang_entry("ko", "Korean manhwa"));
    let second = MockMangaData {
        id: String::from_str("2"),
        item_type: String::from_str("manga"),
        attributes: MockMangaAttributes {
            title: solo_title,
            description: solo_desc,
            status: String::from_str("ongoing"),
            original_language: Some(String::from_str("ko")),
        },
    };

    let mut piece_title: Vec<LangText> = Vec::new();
    piece_title.push(lang_entry("en", "One Piece"));
    piece_title.push(lang_entry("ja", "ONE PIECE"));
    let mut piece_desc: Vec<LangText> = Vec::new();
    piece_desc.push(lang_entry("en", "Pirate adventure"));
    let third = MockMangaData {
        id: String::from_str("3"),
        item_type: String::from_str("manga"),
        attributes: MockMangaAttributes {
            title: piece_title,
            description: piece_desc,
            status: String::from_str("ongoing"),
            original_language: Some(String::from_str("ja")),
        },
    };

    proof {
        reveal_strlit("ko");
        reveal_strlit("en");
        assert("ko"@[0] != "en"@[0]);
        assert("ko"@ != "en"@);
        assert(second.attributes.title@.map_values(|t: LangText| t@)[0].lang == "ko"@);
        assert(second.attributes.title@.map_values(|t: LangText| t@).len() == 1);
        assert(first.attributes.title@.map_values(|t: LangText| t@)[0].lang == "en"@);
        assert(third.attributes.title@.map_values(|t: LangText| t@)[0].lang == "en"@);
    }

    let mut r: Vec<MockMangaData> = Vec::new();
    r.push(first);
    r.push(second);
    r.push(third);
    r
}

} // verus!
