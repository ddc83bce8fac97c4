//! Items of the data API's collections, read into the format of the app:
//! the category each collection holds, the wiki's raw sheet, the warbond
//! without its page. The JSON itself is read outside the library.

use vstd::prelude::*;
use crate::data;
use crate::equipment_sync::{last_occurrence, last_occurrence_exec, spec_item_valid, Category, RemoteItem};
use crate::text;

verus! {

/// Unicode uppercase mapping of one character (`char::to_uppercase`).
pub uninterp spec fn uppercase(c: char) -> Seq<char>;

/// `char::to_uppercase`, collected. Beyond naming the mapping, only ASCII is
/// stated, as the std docs give it: a lowercase letter maps to its uppercase
/// letter, and any other ASCII character to itself.
#[verifier::external_body]
fn upper_chars(c: char) -> (r: Vec<char>)
    ensures
        r@ == uppercase(c),
        'a' <= c <= 'z' ==> r@ == seq![((c as u32) - 32) as char],
        (c as u32) < 0x80 && !('a' <= c <= 'z') ==> r@ == seq![c],
{
    c.to_uppercase().collect()
}

/// First letter uppercase: `medium` → `Medium`, `standard` → `Standard`.
pub open spec fn spec_capitalized(t: Seq<char>) -> Seq<char> {
    if t.len() == 0 {
        Seq::empty()
    } else {
        uppercase(t[0]) + t.drop_first()
    }
}

pub fn capitalized(t: &str) -> (r: String)
    ensures
        r@ == spec_capitalized(t@),
        t@.len() > 0 && (t@[0] as u32) < 0x80 ==> r@ == seq![text::ascii_upper(t@[0])] + t@.drop_first(),
{
    let v = text::chars_of(t);
    if v.len() == 0 {
        return String::new();
    }
    let head = upper_chars(v[0]);
    let tail = text::slice_chars(&v, 1, v.len());
    let all = text::concat_chars(&head, &tail);
    assert(tail@ =~= t@.drop_first());
    text::string_of(&all)
}

/// An item of any collection of the API, with only what the app reads. The
/// wiki's raw sheet comes as text: a JSON string as it is, a number in its
/// JSON form, anything else as no text. ARM, SPD and STA come as whole
/// numbers, present only when the API gave a number from 0 to 1000.
#[derive(Debug, Clone)]
pub struct ApiItem {
    pub id: String,
    pub name: Option<String>,
    pub aliases: Vec<String>,
    pub upcoming: bool,
    pub image_url: Option<String>,
    pub category: Option<String>,
    pub subcategory: Option<String>,
    pub stats_raw: Vec<(String, Option<String>)>,
    pub weight: Option<String>,
    pub armor_rating: Option<i32>,
    pub speed: Option<i32>,
    pub stamina_regen: Option<i32>,
    pub passive_id: Option<String>,
    pub source_label: Option<String>,
    pub effect: Option<String>,
    pub description: Option<String>,
}

pub open spec fn stat_keys(item: ApiItem) -> Seq<Seq<char>> {
    item.stats_raw@.map_values(|e: (String, Option<String>)| e.0@)
}

/// The text of a line of the raw sheet (`Standard Damage`, `Capacity`), trimmed;
/// an empty one is none.
pub open spec fn spec_stat(item: ApiItem, key: Seq<char>) -> Option<Seq<char>> {
    match data::first_index(stat_keys(item), key) {
        Some(i) => match item.stats_raw@[i].1 {
            Some(t) => if text::trim(t@).len() > 0 { Some(text::trim(t@)) } else { None },
            None => None,
        },
        None => None,
    }
}

pub open spec fn all_digits(t: Seq<char>) -> bool {
    forall|i: int| 0 <= i < t.len() ==> text::is_ascii_digit(#[trigger] t[i])
}

/// The source label of the item, trimmed.
pub open spec fn source_label(item: ApiItem) -> Seq<char> {
    text::trim(match item.source_label { Some(l) => l@, None => Seq::empty() })
}

/// A label without its page (`Halo: ODST P2` → `Halo: ODST`).
pub open spec fn without_label_page(label: Seq<char>) -> Seq<char> {
    match last_occurrence(label, " P"@) {
        Some(i) => {
            let page = label.skip(i + 2);
            if page.len() > 0 && all_digits(page) { text::trim_end(label.take(i)) } else { label }
        },
        None => label,
    }
}

/// The warbond the item comes from, without the page, as the scrape writes it.
pub open spec fn spec_warbond(item: ApiItem) -> Seq<char> {
    without_label_page(source_label(item))
}

/// The category of an item of the collection, when the app has one.
pub open spec fn api_category(collection: Seq<char>, category: Option<String>) -> Option<Category> {
    if collection == "weapons"@ {
        match category {
            Some(c) => if c@ == "primary"@ {
                Some(Category::Primary)
            } else if c@ == "secondary"@ {
                Some(Category::Secondary)
            } else if c@ == "throwable"@ {
                Some(Category::Grenade)
            } else {
                None
            },
            None => None,
        }
    } else if collection == "armors"@ {
        Some(Category::Armor)
    } else if collection == "helmets"@ {
        Some(Category::Helmet)
    } else if collection == "capes"@ {
        Some(Category::Cape)
    } else if collection == "boosters"@ {
        Some(Category::Booster)
    } else if collection == "passives"@ {
        Some(Category::Passive)
    } else {
        None
    }
}

pub open spec fn passive_keys(passives: Seq<(String, String)>) -> Seq<Seq<char>> {
    passives.map_values(|e: (String, String)| e.0@)
}

/// The name of a passive by its id on the API.
pub open spec fn passive_name(passives: Seq<(String, String)>, id: Seq<char>) -> Option<Seq<char>> {
    match data::first_index(passive_keys(passives), id) {
        Some(i) => Some(passives[i].1@),
        None => None,
    }
}

pub open spec fn or_empty(o: Option<Seq<char>>) -> Seq<char> {
    match o {
        Some(t) => t,
        None => Seq::empty(),
    }
}

pub open spec fn opt_chars(o: Option<String>) -> Option<Seq<char>> {
    match o {
        Some(t) => Some(t@),
        None => None,
    }
}

/// The item can be read at all: not a future one, of a category of the app,
/// with a name and an image, and an armor with its whole sheet.
pub open spec fn api_item_category(collection: Seq<char>, item: ApiItem, passives: Seq<(String, String)>) -> Option<Category> {
    if item.upcoming || item.name is None || item.image_url is None {
        None
    } else {
        match api_category(collection, item.category) {
            Some(Category::Armor) => if item.weight is Some && item.armor_rating is Some && item.speed is Some
                && item.stamina_regen is Some && item.passive_id is Some
                && passive_name(passives, item.passive_id->0@) is Some {
                Some(Category::Armor)
            } else {
                None
            },
            other => other,
        }
    }
}

/// The fields of the item in the format of the app.
pub open spec fn made_from(item: ApiItem, passives: Seq<(String, String)>, c: Category, x: RemoteItem) -> bool {
    let weapon = c == Category::Primary || c == Category::Secondary;
    &&& x.category == c
    &&& x.slug@ == item.id@
    &&& x.nome@ == text::trim(item.name->0@)
    &&& text::views(x.aliases@) == text::views(item.aliases@)
    &&& x.image@ == item.image_url->0@
    &&& x.tipo@ == (if c == Category::Grenade {
        spec_capitalized(or_empty(opt_chars(item.subcategory)))
    } else if weapon {
        or_empty(spec_stat(item, "Weapon Type"@))
    } else {
        Seq::empty()
    })
    &&& x.dano@ == (if c == Category::Grenade {
        or_empty(spec_stat(item, "Damage"@))
    } else if weapon {
        or_empty(spec_stat(item, "Standard Damage"@))
    } else {
        Seq::empty()
    })
    &&& opt_chars(x.capacidade) == (if c == Category::Grenade || weapon { spec_stat(item, "Capacity"@) } else { None })
    &&& opt_chars(x.cadencia) == (if weapon { spec_stat(item, "Fire Rate"@) } else { None })
    &&& x.peso@ == (if c == Category::Armor { spec_capitalized(item.weight->0@) } else { Seq::empty() })
    &&& x.armor == (if c == Category::Armor { item.armor_rating->0 } else { 0 })
    &&& x.speed == (if c == Category::Armor { item.speed->0 } else { 0 })
    &&& x.stamina == (if c == Category::Armor { item.stamina_regen->0 } else { 0 })
    &&& x.passive@ == (if c == Category::Armor { passive_name(passives, item.passive_id->0@)->0 } else { Seq::empty() })
    &&& x.warbond@ == (if c == Category::Armor || c == Category::Helmet || c == Category::Cape { spec_warbond(item) } else { Seq::empty() })
    &&& x.descricao@ == (if c == Category::Booster {
        match item.effect { Some(e) => e@, None => or_empty(opt_chars(item.description)) }
    } else if c == Category::Passive {
        or_empty(opt_chars(item.description))
    } else {
        Seq::empty()
    })
}

/// What an item of the API becomes: the item in the format of the app, when
/// it can be read and passes the validation.
pub open spec fn spec_from_api(collection: Seq<char>, item: ApiItem, passives: Seq<(String, String)>, r: Option<RemoteItem>) -> bool {
    match api_item_category(collection, item, passives) {
        None => r is None,
        Some(c) => match r {
            Some(x) => made_from(item, passives, c, x) && spec_item_valid(x),
            None => forall|x: RemoteItem| made_from(item, passives, c, x) ==> !spec_item_valid(x),
        },
    }
}


fn trimmed_string(t: &str) -> (r: Vec<char>)
    ensures
        r@ == text::trim(t@),
{
    let v = text::chars_of(t);
    text::trim_chars(&v)
}

impl ApiItem {
    /// The text of a line of the raw sheet, trimmed; an empty one is none.
    pub fn stat(&self, key: &str) -> (r: Option<String>)
        ensures
            opt_chars(r) == spec_stat(*self, key@),
    {
        let mut i: usize = 0;
        while i < self.stats_raw.len()
            invariant
                i <= self.stats_raw@.len(),
                forall|j: int| 0 <= j < i ==> stat_keys(*self)[j] != key@,
            decreases self.stats_raw.len() - i,
        {
            if text::str_eq(self.stats_raw[i].0.as_str(), key) {
                proof {
                    data::lemma_first_index_unique(stat_keys(*self), key@, i as int);
                }
                return match &self.stats_raw[i].1 {
                    Some(t) => {
                        let v = trimmed_string(t.as_str());
                        if v.len() > 0 {
                            Some(text::string_of(&v))
                        } else {
                            None
                        }
                    },
                    None => None,
                };
            }
            i += 1;
        }
        proof {
            data::lemma_first_index(stat_keys(*self), key@);
        }
        None
    }

    /// The warbond the item comes from, without the page.
    pub fn warbond(&self) -> (r: String)
        ensures
            r@ == spec_warbond(*self),
    {
        let label = label_chars(&self.source_label);
        let cut = strip_label_page(&label);
        text::string_of(&cut)
    }
}

fn label_chars(label: &Option<String>) -> (r: Vec<char>)
    ensures
        r@ == text::trim(match *label { Some(l) => l@, None => Seq::empty() }),
{
    match label {
        Some(l) => trimmed_string(l.as_str()),
        None => {
            let v: Vec<char> = Vec::new();
            let t = text::trim_chars(&v);
            t
        },
    }
}

fn all_digits_exec(page: &Vec<char>) -> (r: bool)
    ensures
        r == all_digits(page@),
{
    let mut k: usize = 0;
    while k < page.len()
        invariant
            k <= page@.len(),
            forall|j: int| 0 <= j < k ==> text::is_ascii_digit(#[trigger] page@[j]),
        decreases page.len() - k,
    {
        if !text::char_is_ascii_digit(page[k]) {
            return false;
        }
        k += 1;
    }
    true
}

fn strip_label_page(label: &Vec<char>) -> (r: Vec<char>)
    ensures
        r@ == without_label_page(label@),
{
    proof {
        reveal_strlit(" P");
    }
    let pat = text::chars_of(" P");
    match last_occurrence_exec(label, &pat) {
        Some(at) => {
            assert(pat@.len() == 2);
            assert(text::occurs_at(label@, pat@, at as int));
            let n = label.len();
            assert(at + 2 <= n);
            let page = text::slice_chars(label, at + 2, n);
            assert(page@ =~= label@.skip(at + 2));
            if page.len() > 0 && all_digits_exec(&page) {
                let head = text::slice_chars(label, 0, at);
                let n = text::ws_suffix_exec(&head);
                let cut = text::slice_chars(&head, 0, head.len() - n);
                assert(head@ =~= label@.take(at as int));
                assert(cut@ =~= text::trim_end(head@));
                cut
            } else {
                text::slice_chars(label, 0, label.len())
            }
        },
        None => text::slice_chars(label, 0, label.len()),
    }
}


fn category_of(collection: &str, category: &Option<String>) -> (r: Option<Category>)
    ensures
        r == api_category(collection@, *category),
{
    proof {
        reveal_strlit("weapons");
        reveal_strlit("armors");
        reveal_strlit("helmets");
        reveal_strlit("capes");
        reveal_strlit("boosters");
        reveal_strlit("passives");
        reveal_strlit("primary");
        reveal_strlit("secondary");
        reveal_strlit("throwable");
    }
    if text::str_eq(collection, "weapons") {
        match category {
            Some(c) => if text::str_eq(c.as_str(), "primary") {
                Some(Category::Primary)
            } else if text::str_eq(c.as_str(), "secondary") {
                Some(Category::Secondary)
            } else if text::str_eq(c.as_str(), "throwable") {
                Some(Category::Grenade)
            } else {
                None
            },
            None => None,
        }
    } else if text::str_eq(collection, "armors") {
        Some(Category::Armor)
    } else if text::str_eq(collection, "helmets") {
        Some(Category::Helmet)
    } else if text::str_eq(collection, "capes") {
        Some(Category::Cape)
    } else if text::str_eq(collection, "boosters") {
        Some(Category::Booster)
    } else if text::str_eq(collection, "passives") {
        Some(Category::Passive)
    } else {
        None
    }
}

fn passive_lookup(passives: &Vec<(String, String)>, id: &str) -> (r: Option<String>)
    ensures
        opt_chars(r) == passive_name(passives@, id@),
{
    let mut i: usize = 0;
    while i < passives.len()
        invariant
            i <= passives@.len(),
            forall|j: int| 0 <= j < i ==> passive_keys(passives@)[j] != id@,
        decreases passives.len() - i,
    {
        if text::str_eq(passives[i].0.as_str(), id) {
            proof {
                data::lemma_first_index_unique(passive_keys(passives@), id@, i as int);
            }
            return Some(text::owned(passives[i].1.as_str()));
        }
        i += 1;
    }
    proof {
        data::lemma_first_index(passive_keys(passives@), id@);
    }
    None
}

fn text_or_empty(o: &Option<String>) -> (r: String)
    ensures
        r@ == or_empty(opt_chars(*o)),
{
    match o {
        Some(t) => text::owned(t.as_str()),
        None => String::new(),
    }
}

fn stat_or_empty(item: &ApiItem, key: &str) -> (r: String)
    ensures
        r@ == or_empty(spec_stat(*item, key@)),
{
    match item.stat(key) {
        Some(t) => t,
        None => String::new(),
    }
}

fn copy_aliases(v: &Vec<String>) -> (r: Vec<String>)
    ensures
        text::views(r@) == text::views(v@),
{
    let mut r: Vec<String> = Vec::new();
    let mut i: usize = 0;
    while i < v.len()
        invariant
            i <= v@.len(),
            text::views(r@) == text::views(v@.take(i as int)),
        decreases v.len() - i,
    {
        text::push_string(&mut r, text::owned(v[i].as_str()));
        assert(text::views(v@.take(i + 1)) =~= text::views(v@.take(i as int)).push(v@[i as int]@));
        i += 1;
    }
    assert(v@.take(v@.len() as int) =~= v@);
    r
}

/// Two items made from the same API item are both valid or both not.
proof fn lemma_made_alike(item: ApiItem, passives: Seq<(String, String)>, c: Category, x: RemoteItem, y: RemoteItem)
    requires
        made_from(item, passives, c, x),
        made_from(item, passives, c, y),
    ensures
        spec_item_valid(x) == spec_item_valid(y),
{
    assert(x.aliases@.len() == text::views(x.aliases@).len());
    assert(y.aliases@.len() == text::views(y.aliases@).len());
    assert forall|i: int| 0 <= i < x.aliases@.len() implies #[trigger] x.aliases@[i]@ == y.aliases@[i]@ by {
        assert(text::views(x.aliases@)[i] == x.aliases@[i]@);
        assert(text::views(y.aliases@)[i] == y.aliases@[i]@);
    }
    let ax = forall|i: int| 0 <= i < x.aliases@.len() ==> crate::equipment_sync::text_ok(#[trigger] x.aliases@[i]@, crate::equipment_sync::MAX_NAME_CHARS as int);
    let ay = forall|i: int| 0 <= i < y.aliases@.len() ==> crate::equipment_sync::text_ok(#[trigger] y.aliases@[i]@, crate::equipment_sync::MAX_NAME_CHARS as int);
    if ax {
        assert forall|i: int| 0 <= i < y.aliases@.len() implies crate::equipment_sync::text_ok(#[trigger] y.aliases@[i]@, crate::equipment_sync::MAX_NAME_CHARS as int) by {
            assert(x.aliases@[i]@ == y.aliases@[i]@);
        }
    }
    if ay {
        assert forall|i: int| 0 <= i < x.aliases@.len() implies crate::equipment_sync::text_ok(#[trigger] x.aliases@[i]@, crate::equipment_sync::MAX_NAME_CHARS as int) by {
            assert(x.aliases@[i]@ == y.aliases@[i]@);
        }
    }
    assert(ax == ay);
    assert(crate::equipment_sync::optional_ok(x.capacidade) == crate::equipment_sync::optional_ok(y.capacidade));
    assert(crate::equipment_sync::optional_ok(x.cadencia) == crate::equipment_sync::optional_ok(y.cadencia));
}

/// The item in the format of the app, or `None`: a future item, one of
/// another category, or one with odd data.
pub fn from_api(collection: &str, item: ApiItem, passives: &Vec<(String, String)>) -> (r: Option<RemoteItem>)
    ensures
        spec_from_api(collection@, item, passives@, r),
{
    proof {
        reveal_strlit("Weapon Type");
        reveal_strlit("Standard Damage");
        reveal_strlit("Damage");
        reveal_strlit("Capacity");
        reveal_strlit("Fire Rate");
    }
    if item.upcoming {
        return None;
    }
    let category = match category_of(collection, &item.category) {
        Some(c) => c,
        None => return None,
    };
    let nome = match &item.name {
        Some(n) => trimmed_string(n.as_str()),
        None => return None,
    };
    let image = match &item.image_url {
        Some(u) => text::owned(u.as_str()),
        None => return None,
    };
    let weapon = category == Category::Primary || category == Category::Secondary;
    let grenade = category == Category::Grenade;
    let is_armor = category == Category::Armor;
    let tipo = if grenade {
        capitalized(text_or_empty(&item.subcategory).as_str())
    } else if weapon {
        stat_or_empty(&item, "Weapon Type")
    } else {
        String::new()
    };
    let dano = if grenade {
        stat_or_empty(&item, "Damage")
    } else if weapon {
        stat_or_empty(&item, "Standard Damage")
    } else {
        String::new()
    };
    let capacidade = if grenade || weapon { item.stat("Capacity") } else { None };
    let cadencia = if weapon { item.stat("Fire Rate") } else { None };
    let (peso, armor, speed, stamina, passive) = if is_armor {
        let w = match &item.weight {
            Some(w) => capitalized(w.as_str()),
            None => return None,
        };
        let a = match item.armor_rating {
            Some(v) => v,
            None => return None,
        };
        let sp = match item.speed {
            Some(v) => v,
            None => return None,
        };
        let st = match item.stamina_regen {
            Some(v) => v,
            None => return None,
        };
        let p = match &item.passive_id {
            Some(id) => match passive_lookup(passives, id.as_str()) {
                Some(name) => name,
                None => return None,
            },
            None => return None,
        };
        (w, a, sp, st, p)
    } else {
        (String::new(), 0i32, 0i32, 0i32, String::new())
    };
    let warbond = if is_armor || category == Category::Helmet || category == Category::Cape {
        item.warbond()
    } else {
        String::new()
    };
    let descricao = if category == Category::Booster {
        match &item.effect {
            Some(e) => text::owned(e.as_str()),
            None => text_or_empty(&item.description),
        }
    } else if category == Category::Passive {
        text_or_empty(&item.description)
    } else {
        String::new()
    };
    let remote = RemoteItem {
        category,
        slug: text::owned(item.id.as_str()),
        nome: text::string_of(&nome),
        aliases: copy_aliases(&item.aliases),
        image,
        tipo,
        dano,
        capacidade,
        cadencia,
        peso,
        armor,
        speed,
        stamina,
        passive,
        warbond,
        descricao,
    };
    assert(api_item_category(collection@, item, passives@) == Some(category));
    assert(made_from(item, passives@, category, remote));
    if remote.is_valid() {
        Some(remote)
    } else {
        proof {
            assert forall|x: RemoteItem| made_from(item, passives@, category, x) implies !spec_item_valid(x) by {
                lemma_made_alike(item, passives@, category, x, remote);
            }
        }
        None
    }
}

/// `x` is what some item of the list became.
pub open spec fn made_from_one(collection: Seq<char>, items: Seq<ApiItem>, passives: Seq<(String, String)>, x: RemoteItem) -> bool {
    exists|j: int| 0 <= j < items.len() && #[trigger] spec_from_api(collection, items[j], passives, Some(x))
}

/// The readable items of a collection that pass, in the API's order
/// (what `parse_collection` keeps of an answer).
pub fn collection_items(collection: &str, items: Vec<ApiItem>, passives: &Vec<(String, String)>) -> (r: Vec<RemoteItem>)
    ensures
        forall|k: int| 0 <= k < r@.len() ==> #[trigger] spec_item_valid(r@[k]),
        r@.len() <= items@.len(),
        forall|k: int| 0 <= k < r@.len() ==> #[trigger] made_from_one(collection@, items@, passives@, r@[k]),
        forall|j: int| 0 <= j < items@.len() && api_item_category(collection@, #[trigger] items@[j], passives@) is Some
            && (exists|x: RemoteItem| made_from(items@[j], passives@, api_item_category(collection@, items@[j], passives@)->0, x) && spec_item_valid(x))
            ==> exists|k: int| 0 <= k < r@.len() && made_from(items@[j], passives@, api_item_category(collection@, items@[j], passives@)->0, #[trigger] r@[k]),
{
    let mut r: Vec<RemoteItem> = Vec::new();
    let mut i: usize = 0;
    let ghost all = items@;
    let mut items = items;
    let total = items.len();
    assert(all.skip(0) =~= all);
    while items.len() > 0
        invariant
            all.len() == total,
            i + items@.len() == all.len(),
            items@ == all.skip(i as int),
            r@.len() <= i,
            forall|k: int| 0 <= k < r@.len() ==> #[trigger] spec_item_valid(r@[k]),
            forall|k: int| 0 <= k < r@.len() ==> #[trigger] made_from_one(collection@, all, passives@, r@[k]),
            forall|j: int| 0 <= j < i && api_item_category(collection@, #[trigger] all[j], passives@) is Some
                && (exists|x: RemoteItem| made_from(all[j], passives@, api_item_category(collection@, all[j], passives@)->0, x) && spec_item_valid(x))
                ==> exists|k: int| 0 <= k < r@.len() && made_from(all[j], passives@, api_item_category(collection@, all[j], passives@)->0, #[trigger] r@[k]),
        decreases items.len(),
    {
        let item = items.remove(0);
        assert(item == all[i as int]);
        assert(items@ =~= all.skip(i + 1));
        let got = from_api(collection, item, passives);
        let ghost before = r@;
        match got {
            Some(x) => {
                r.push(x);
                assert(r@[r@.len() - 1] == x);
                assert(spec_from_api(collection@, all[i as int], passives@, Some(r@[r@.len() - 1])));
                assert forall|k: int| 0 <= k < r@.len() implies #[trigger] made_from_one(collection@, all, passives@, r@[k]) by {
                    if k < before.len() {
                        assert(r@[k] == before[k]);
                    } else {
                        assert(spec_from_api(collection@, all[i as int], passives@, Some(r@[k])));
                    }
                }
            },
            None => {},
        }
        assert forall|j: int| 0 <= j < i + 1 && api_item_category(collection@, #[trigger] all[j], passives@) is Some
            && (exists|x: RemoteItem| made_from(all[j], passives@, api_item_category(collection@, all[j], passives@)->0, x) && spec_item_valid(x))
            implies exists|k: int| 0 <= k < r@.len() && made_from(all[j], passives@, api_item_category(collection@, all[j], passives@)->0, #[trigger] r@[k]) by {
            if j < i {
                let k0 = choose|k: int| 0 <= k < before.len() && made_from(all[j], passives@, api_item_category(collection@, all[j], passives@)->0, #[trigger] before[k]);
                assert(r@[k0] == before[k0]);
            } else {
                assert(got is Some);
                assert(r@[r@.len() - 1] == got->0);
            }
        }
        i += 1;
    }
    r
}

} // verus!
