//! New stratagems before a release: the list of the data API is checked
//! against the bundled JSON, which still rules the curated order, the names
//! and the tags. From the API come two things: a new stratagem, placed at the
//! end of its subgroup, and a codex changed by a patch.
//!
//! The codex becomes key presses, so everything that comes from outside is
//! validated, on arrival and again when the cache is read.

use vstd::prelude::*;
use vstd::string::StrSliceExecFns;
use crate::data::{self, Dir, StratKind, Stratagem};
use crate::hooks;
use crate::text;

verus! {

/// Root of the data API.
pub const API_BASE: &'static str = "https://helldivers-api.dionatha.com.br";

/// Path of the stratagem list on the API.
pub const STRATAGEMS_PATH: &'static str = "/v1/stratagems.json";

/// Cache of the last valid list, in the configuration folder.
pub const CACHE_FILE: &'static str = "stratagems-remote.json";

/// Format of the cache; another version is ignored whole.
pub const CACHE_VERSION: u32 = 1;

/// Where the images come from; any other path is refused.
pub const IMAGES_PATH: &'static str = "/images/v1/stratagems/";

/// Prefix of the `imagem` of downloaded stratagems, relative to `assets/icons/`.
pub const ICON_PREFIX: &'static str = "remote/";

/// Fewer loadout stratagems than this and the API is broken, not the game
/// shrinking: the whole list is refused.
pub const MIN_LOADOUT: usize = 80;

/// The longest codex of the game has 8 steps; above this the data is corrupt.
pub const MAX_CODEX: usize = 12;

/// Ceiling of codex changes in one sync. A patch touches one or two; many at
/// once is a broken API, and then no change counts.
pub const MAX_CODEX_CHANGES: usize = 5;

/// A loadout stratagem that came from the API, already validated. It is also
/// the format of the cache.
#[derive(Debug, Clone, PartialEq, Eq)]
pub struct RemoteStratagem {
    pub slug: String,
    pub nome: String,
    /// `Offensive` | `Supply` | `Defensive` (the text of the bundled tag).
    pub permit: String,
    /// `orbital`, `eagle`, `support_weapon`, `backpack`, `vehicle`, `sentry`, ...
    pub kind: String,
    pub traits: Vec<String>,
    pub codex: Vec<Dir>,
    /// Path of the image on the API (`/images/v1/stratagems/<slug>.<hash>.webp`).
    pub image: String,
}

/// The image path with the images prefix removed, or nothing.
pub open spec fn spec_icon_file(image: Seq<char>) -> Seq<char> {
    if text::starts_with(image, IMAGES_PATH@) {
        image.skip(IMAGES_PATH@.len() as int)
    } else {
        Seq::empty()
    }
}

/// The traits as characters.
pub open spec fn traits_of(r: RemoteStratagem) -> Seq<Seq<char>> {
    text::views(r.traits@)
}

/// A word of the slug (split on `-`) starts at `i`.
pub open spec fn word_start(s: Seq<char>, i: int) -> bool {
    i == 0 || (0 < i <= s.len() && s[i - 1] == '-')
}

/// Some word of the slug (split on `-`) starts with `prefix`.
pub open spec fn spec_slug_has_word(s: Seq<char>, prefix: Seq<char>) -> bool {
    &&& !prefix.contains('-')
    &&& exists|i: int| 0 <= i <= s.len() && word_start(s, i) && #[trigger] text::occurs_at(s, prefix, i)
}

/// Characters a slug may hold.
pub open spec fn slug_char(c: char) -> bool {
    text::is_ascii_lower(c) || text::is_ascii_digit(c) || c == '-'
}

/// Characters the stem of an icon file may hold.
pub open spec fn icon_char(c: char) -> bool {
    slug_char(c) || c == '.'
}

/// The format the API uses for ids. It becomes part of a path on disk (the
/// icon name), so no `/`, `\`, `.` or uppercase.
pub open spec fn spec_valid_slug(s: Seq<char>) -> bool {
    &&& 1 <= s.len() <= 80
    &&& s[0] != '-'
    &&& forall|i: int| 0 <= i < s.len() ==> slug_char(#[trigger] s[i])
}

/// An icon file: `<stem>.webp`, the stem made of slug characters and dots,
/// without `..` and not starting with a dot.
pub open spec fn spec_valid_icon_file(f: Seq<char>) -> bool {
    &&& f.len() >= 5
    &&& f.skip(f.len() - 5) == ".webp"@
    &&& 1 <= f.len() - 5 <= 120
    &&& f[0] != '.'
    &&& !text::contains(f.take(f.len() - 5), ".."@)
    &&& forall|i: int| 0 <= i < f.len() - 5 ==> icon_char(#[trigger] f[i])
}

/// `offensive` gives `Offensive`; anything else (mission, objective) is not loadout.
pub open spec fn spec_permit_tag(p: Seq<char>) -> Option<Seq<char>> {
    if p == "offensive"@ {
        Some("Offensive"@)
    } else if p == "supply"@ {
        Some("Supply"@)
    } else if p == "defensive"@ {
        Some("Defensive"@)
    } else {
        None
    }
}

/// Everything the app uses is in order.
pub open spec fn spec_is_valid(r: RemoteStratagem) -> bool {
    &&& spec_valid_slug(r.slug@)
    &&& text::trim(r.nome@).len() != 0
    &&& r.nome@.len() <= 80
    &&& spec_permit_tag(text::ascii_lower_seq(r.permit@)) == Some(r.permit@)
    &&& 1 <= r.codex@.len() <= MAX_CODEX
    &&& spec_valid_icon_file(spec_icon_file(r.image@))
    &&& text::starts_with(r.image@, IMAGES_PATH@)
}

/// The tags a new stratagem gets: its permit, and `Mecha` or `Vehicle` for a
/// vehicle (one of each per loadout).
pub open spec fn remote_tags(r: RemoteStratagem) -> Seq<Seq<char>> {
    if r.kind@ == "vehicle"@ {
        if spec_slug_has_word(r.slug@, "exosuit"@) {
            seq![r.permit@, "Mecha"@]
        } else {
            seq![r.permit@, "Vehicle"@]
        }
    } else {
        seq![r.permit@]
    }
}

/// The classification a new stratagem carries: a weapon with a backpack
/// (Autocannon, Recoilless...) also takes the backpack slot.
pub open spec fn remote_kind(r: RemoteStratagem) -> StratKind {
    StratKind {
        support: r.kind@ == "support_weapon"@,
        backpack: r.kind@ == "backpack"@ || traits_of(r).contains("backpack"@),
        sentry: r.kind@ == "sentry"@,
    }
}

/// The stratagem as the rest of the app sees it.
pub open spec fn spec_to_stratagem(r: RemoteStratagem, id: u32, s: Stratagem) -> bool {
    &&& s.id == id
    &&& s.slug@ == r.slug@
    &&& s.nome@ == text::trim(r.nome@)
    &&& s.imagem@ == ICON_PREFIX@ + spec_icon_file(r.image@)
    &&& data::tags_of(&s) == remote_tags(r)
    &&& s.codex@ == r.codex@
    &&& s.kind_hint == Some(remote_kind(r))
}

/// A new stratagem is classed by the kind the API gives it: a sentry exactly
/// when the kind is "sentry", a support weapon exactly when it is
/// "support_weapon", and a backpack when the kind is "backpack" or a trait
/// says "backpack". Its first tag is its permit; a vehicle also gets `Mecha`
/// when its slug has the word "exosuit", `Vehicle` otherwise. Its codex is
/// the one the API gave.
pub proof fn law_a_new_stratagem_is_classed_by_its_kind(r: RemoteStratagem, id: u32, s: Stratagem)
    requires
        spec_to_stratagem(r, id, s),
    ensures
        s.kind_hint is Some,
        s.kind_hint->0.sentry <==> r.kind@ == "sentry"@,
        s.kind_hint->0.support <==> r.kind@ == "support_weapon"@,
        s.kind_hint->0.backpack <==> (r.kind@ == "backpack"@ || traits_of(r).contains("backpack"@)),
        data::tags_of(&s)[0] == r.permit@,
        data::tags_of(&s).len() == (if r.kind@ == "vehicle"@ { 2int } else { 1int }),
        r.kind@ == "vehicle"@ ==> (data::tags_of(&s)[1] == "Mecha"@ <==> spec_slug_has_word(r.slug@, "exosuit"@)),
        r.kind@ == "vehicle"@ && !spec_slug_has_word(r.slug@, "exosuit"@) ==> data::tags_of(&s)[1] == "Vehicle"@,
        s.codex@ == r.codex@,
{
    reveal_strlit("Mecha");
    reveal_strlit("Vehicle");
    assert("Mecha"@[0] != "Vehicle"@[0]);
}

fn string_chars_eq(a: &String, b: &str) -> (r: bool)
    ensures
        r == (a@ == b@),
{
    text::str_eq(a.as_str(), b)
}

impl RemoteStratagem {
    /// Name of the icon file. It carries a content hash, so a changed icon
    /// arrives under another name and never reuses the old one.
    pub fn icon_file(&self) -> (r: &str)
        ensures
            r@ == spec_icon_file(self.image@),
    {
        let img = text::chars_of(self.image.as_str());
        let pre = text::chars_of(IMAGES_PATH);
        if text::chars_starts_with(&img, &pre) {
            let n = self.image.as_str().unicode_len();
            self.image.as_str().substring_char(pre.len(), n)
        } else {
            proof {
                reveal_strlit("");
            }
            ""
        }
    }

    fn has_trait(&self, name: &str) -> (r: bool)
        ensures
            r == traits_of(*self).contains(name@),
    {
        let mut i: usize = 0;
        while i < self.traits.len()
            invariant
                i <= self.traits@.len(),
                forall|j: int| 0 <= j < i ==> self.traits@[j]@ != name@,
            decreases self.traits.len() - i,
        {
            if string_chars_eq(&self.traits[i], name) {
                assert(traits_of(*self)[i as int] == name@);
                return true;
            }
            i += 1;
        }
        assert(!traits_of(*self).contains(name@)) by {
            if traits_of(*self).contains(name@) {
                let k = choose|k: int| 0 <= k < traits_of(*self).len() && traits_of(*self)[k] == name@;
                assert(self.traits@[k]@ == name@);
            }
        }
        false
    }

    fn slug_has_word(&self, prefix: &str) -> (r: bool)
        ensures
            r == spec_slug_has_word(self.slug@, prefix@),
    {
        let s = text::chars_of(self.slug.as_str());
        let p = text::chars_of(prefix);
        let mut k: usize = 0;
        while k < p.len()
            invariant
                k <= p@.len(),
                p@ == prefix@,
                forall|j: int| 0 <= j < k ==> p@[j] != '-',
            decreases p.len() - k,
        {
            if p[k] == '-' {
                assert(p@.contains('-')) by {
                    assert(p@[k as int] == '-');
                }
                return false;
            }
            k += 1;
        }
        assert(!p@.contains('-'));
        let mut i: usize = 0;
        while i < s.len()
            invariant
                i <= s@.len(),
                p@ == prefix@,
                s@ == self.slug@,
                !p@.contains('-'),
                forall|j: int| 0 <= j < i ==> !(word_start(s@, j) && #[trigger] text::occurs_at(s@, p@, j)),
            decreases s.len() - i,
        {
            if (i == 0 || s[i - 1] == '-') && p.len() <= s.len() - i {
                if text::occurs_at_exec(&s, &p, i) {
                    return true;
                }
            }
            i += 1;
        }
        if p.len() == 0 {
            assert(p@.len() == 0 ==> s@.subrange(0, 0) =~= p@);
            assert(text::occurs_at(s@, p@, 0));
            return true;
        }
        false
    }

    /// Checks everything the app uses. The cache goes through here again
    /// when it is read.
    pub fn is_valid(&self) -> (r: bool)
        ensures
            r == spec_is_valid(*self),
    {
        if !valid_slug(self.slug.as_str()) {
            return false;
        }
        let nome = text::chars_of(self.nome.as_str());
        let trimmed = text::trim_chars(&nome);
        if trimmed.len() == 0 || nome.len() > 80 {
            return false;
        }
        let permit = text::chars_of(self.permit.as_str());
        let lower = lower_ascii_chars(&permit);
        let tag = permit_tag_chars(&lower);
        match tag {
            None => {
                return false;
            },
            Some(t) => {
                let tc = text::chars_of(t);
                if !text::chars_eq(&tc, &permit) {
                    return false;
                }
            },
        }
        if self.codex.len() < 1 || self.codex.len() > MAX_CODEX {
            return false;
        }
        if !valid_icon_file(self.icon_file()) {
            return false;
        }
        let img = text::chars_of(self.image.as_str());
        let pre = text::chars_of(IMAGES_PATH);
        text::chars_starts_with(&img, &pre)
    }

    /// The stratagem as the rest of the app sees it.
    pub fn to_stratagem(&self, id: u32) -> (s: Stratagem)
        ensures
            spec_to_stratagem(*self, id, s),
    {
        let mut tag: Vec<String> = Vec::new();
        tag.push(self.permit.clone());
        if string_chars_eq(&self.kind, "vehicle") {
            if self.slug_has_word("exosuit") {
                tag.push(text::owned("Mecha"));
            } else {
                tag.push(text::owned("Vehicle"));
            }
        }
        let nome_c = text::chars_of(self.nome.as_str());
        let nome_t = text::trim_chars(&nome_c);
        let pre = text::chars_of(ICON_PREFIX);
        let file = text::chars_of(self.icon_file());
        let imagem_c = text::concat_chars(&pre, &file);
        let kind = StratKind {
            support: string_chars_eq(&self.kind, "support_weapon"),
            backpack: string_chars_eq(&self.kind, "backpack") || self.has_trait("backpack"),
            sentry: string_chars_eq(&self.kind, "sentry"),
        };
        let s = Stratagem {
            id,
            slug: self.slug.clone(),
            nome: text::string_of(&nome_t),
            imagem: text::string_of(&imagem_c),
            tag,
            codex: hooks::copy_codex(&self.codex),
            kind_hint: Some(kind),
        };
        assert(data::tags_of(&s) =~= remote_tags(*self));
        s
    }
}

fn lower_ascii_chars(s: &Vec<char>) -> (r: Vec<char>)
    ensures
        r@ == text::ascii_lower_seq(s@),
{
    let mut r: Vec<char> = Vec::new();
    let mut i: usize = 0;
    while i < s.len()
        invariant
            i <= s@.len(),
            r@ == text::ascii_lower_seq(s@.take(i as int)),
        decreases s.len() - i,
    {
        r.push(text::char_ascii_lower(s[i]));
        assert(text::ascii_lower_seq(s@.take(i + 1)) =~= text::ascii_lower_seq(s@.take(i as int)).push(text::ascii_lower(s@[i as int])));
        i += 1;
    }
    assert(s@.take(s@.len() as int) =~= s@);
    r
}

fn permit_tag_chars(p: &Vec<char>) -> (r: Option<&'static str>)
    ensures
        r is None <==> spec_permit_tag(p@) is None,
        r matches Some(t) ==> spec_permit_tag(p@) == Some(t@),
{
    let o = text::chars_of("offensive");
    let s = text::chars_of("supply");
    let d = text::chars_of("defensive");
    if text::chars_eq(p, &o) {
        Some("Offensive")
    } else if text::chars_eq(p, &s) {
        Some("Supply")
    } else if text::chars_eq(p, &d) {
        Some("Defensive")
    } else {
        None
    }
}

/// `offensive` gives `Offensive`; anything else is not a loadout permit.
pub fn permit_tag(permit: &str) -> (r: Option<&'static str>)
    ensures
        r is None <==> spec_permit_tag(permit@) is None,
        r matches Some(t) ==> spec_permit_tag(permit@) == Some(t@),
{
    let p = text::chars_of(permit);
    permit_tag_chars(&p)
}

fn all_chars(s: &Vec<char>, from: usize, to: usize, dot: bool) -> (r: bool)
    requires
        from <= to <= s@.len(),
    ensures
        r == (forall|i: int| from <= i < to ==> (if dot { icon_char(#[trigger] s@[i]) } else { slug_char(s@[i]) })),
{
    let mut i: usize = from;
    while i < to
        invariant
            from <= i <= to <= s@.len(),
            forall|j: int| from <= j < i ==> (if dot { icon_char(#[trigger] s@[j]) } else { slug_char(s@[j]) }),
        decreases to - i,
    {
        let c = s[i];
        let ok = text::char_is_ascii_digit(c) || c == '-' || ('a' <= c && c <= 'z') || (dot && c == '.');
        if !ok {
            return false;
        }
        i += 1;
    }
    true
}

/// The slug format of the API.
pub fn valid_slug(slug: &str) -> (r: bool)
    ensures
        r == spec_valid_slug(slug@),
{
    let s = text::chars_of(slug);
    if s.len() < 1 || s.len() > 80 || s[0] == '-' {
        return false;
    }
    all_chars(&s, 0, s.len(), false)
}

/// The icon file format.
pub fn valid_icon_file(file: &str) -> (r: bool)
    ensures
        r == spec_valid_icon_file(file@),
{
    let f = text::chars_of(file);
    let suffix = text::chars_of(".webp");
    if f.len() < 5 {
        return false;
    }
    let tail = text::slice_chars(&f, f.len() - 5, f.len());
    assert(tail@ =~= f@.skip(f@.len() - 5));
    if !text::chars_eq(&tail, &suffix) {
        return false;
    }
    let stem_len = f.len() - 5;
    if stem_len < 1 || stem_len > 120 || f[0] == '.' {
        return false;
    }
    let stem = text::slice_chars(&f, 0, stem_len);
    assert(stem@ =~= f@.take(stem_len as int));
    let dots = text::chars_of("..");
    if text::chars_contains(&stem, &dots) {
        return false;
    }
    all_chars(&f, 0, stem_len, true)
}


/// The family of a stratagem inside its type, as the game groups them:
/// support weapons split into melee, expendable, with backpack and common;
/// exosuits apart from vehicles; mines apart from emplacements.
pub open spec fn spec_family(r: RemoteStratagem) -> Seq<char> {
    if r.kind@ == "support_weapon"@ && traits_of(r).contains("melee"@) {
        "melee"@
    } else if r.kind@ == "support_weapon"@ && traits_of(r).contains("expendable"@) {
        "expendable"@
    } else if r.kind@ == "support_weapon"@ && traits_of(r).contains("backpack"@) {
        "backpack_weapon"@
    } else if r.kind@ == "support_weapon"@ {
        "weapon"@
    } else if r.kind@ == "vehicle"@ && spec_slug_has_word(r.slug@, "exosuit"@) {
        "exosuit"@
    } else if r.kind@ == "emplacement"@ && spec_slug_has_word(r.slug@, "mine"@) {
        "mines"@
    } else {
        r.kind@
    }
}

/// Subgroup of the stratagem inside the section of its color: `permit/family`.
pub open spec fn spec_group_of(r: RemoteStratagem) -> Seq<char> {
    r.permit@ + "/"@ + spec_family(r)
}

fn family_of(remote: &RemoteStratagem) -> (r: &str)
    ensures
        r@ == spec_family(*remote),
{
    let weapon = string_chars_eq(&remote.kind, "support_weapon");
    if weapon && remote.has_trait("melee") {
        "melee"
    } else if weapon && remote.has_trait("expendable") {
        "expendable"
    } else if weapon && remote.has_trait("backpack") {
        "backpack_weapon"
    } else if weapon {
        "weapon"
    } else if string_chars_eq(&remote.kind, "vehicle") && remote.slug_has_word("exosuit") {
        "exosuit"
    } else if string_chars_eq(&remote.kind, "emplacement") && remote.slug_has_word("mine") {
        "mines"
    } else {
        remote.kind.as_str()
    }
}

/// Subgroup of the stratagem inside the section of its color, as the game
/// groups them. The order inside a subgroup is the game's own and exists only
/// in the bundled JSON.
pub fn group_of(remote: &RemoteStratagem) -> (r: String)
    ensures
        r@ == spec_group_of(*remote),
{
    let permit = text::chars_of(remote.permit.as_str());
    let slash = text::chars_of("/");
    let family = text::chars_of(family_of(remote));
    let head = text::concat_chars(&permit, &slash);
    let all = text::concat_chars(&head, &family);
    text::string_of(&all)
}

/// 32-bit FNV-1a over bytes.
pub open spec fn fnv1a(bytes: Seq<u8>) -> u32
    decreases bytes.len(),
{
    if bytes.len() == 0 {
        0x811c_9dc5
    } else {
        let h = fnv1a(bytes.drop_last()) ^ (bytes.last() as u32);
        ((h as nat * 0x0100_0193nat) % 0x1_0000_0000nat) as u32
    }
}

/// Numeric id of a stratagem that came from the API: FNV-1a of the slug's
/// UTF-8 bytes, with the high bit set. The same number on every machine, and
/// apart from the curated ids, which are small.
pub fn stable_id(slug: &str) -> (r: u32)
    ensures
        r == fnv1a(vstd::utf8::encode_utf8(slug@)) | 0x8000_0000,
{
    let bytes = slug.as_bytes();
    let mut hash: u32 = 0x811c_9dc5;
    let mut i: usize = 0;
    assert(bytes@.take(0) =~= Seq::<u8>::empty());
    while i < bytes.len()
        invariant
            i <= bytes@.len(),
            bytes@ == vstd::utf8::encode_utf8(slug@),
            hash == fnv1a(bytes@.take(i as int)),
        decreases bytes.len() - i,
    {
        assert(bytes@.take(i + 1).drop_last() =~= bytes@.take(i as int));
        hash ^= bytes[i] as u32;
        hash = hash.wrapping_mul(0x0100_0193);
        i += 1;
    }
    assert(bytes@.take(bytes@.len() as int) =~= bytes@);
    hash | 0x8000_0000
}

/// One step of a codex as the API writes it.
pub open spec fn spec_parse_dir(step: Seq<char>) -> Option<Dir> {
    if step == "up"@ {
        Some(Dir::Up)
    } else if step == "down"@ {
        Some(Dir::Down)
    } else if step == "left"@ {
        Some(Dir::Left)
    } else if step == "right"@ {
        Some(Dir::Right)
    } else {
        None
    }
}

pub fn parse_dir(step: &str) -> (r: Option<Dir>)
    ensures
        r == spec_parse_dir(step@),
{
    if text::str_eq(step, "up") {
        Some(Dir::Up)
    } else if text::str_eq(step, "down") {
        Some(Dir::Down)
    } else if text::str_eq(step, "left") {
        Some(Dir::Left)
    } else if text::str_eq(step, "right") {
        Some(Dir::Right)
    } else {
        None
    }
}

/// Each step word of the API is the direction of the same name, and nothing
/// else is a step.
pub proof fn law_each_step_word_is_its_direction(step: Seq<char>)
    ensures
        spec_parse_dir("up"@) == Some(Dir::Up),
        spec_parse_dir("down"@) == Some(Dir::Down),
        spec_parse_dir("left"@) == Some(Dir::Left),
        spec_parse_dir("right"@) == Some(Dir::Right),
        spec_parse_dir(step) is Some <==> (step == "up"@ || step == "down"@ || step == "left"@ || step == "right"@),
{
    reveal_strlit("up");
    reveal_strlit("down");
    reveal_strlit("left");
    reveal_strlit("right");
    assert("down"@[0] != "up"@[0]);
    assert("left"@[0] != "up"@[0] && "left"@[0] != "down"@[0]);
    assert("right"@[0] != "up"@[0] && "right"@[0] != "down"@[0] && "right"@[0] != "left"@[0]);
}

/// A codex parses when every step is a direction word, and then it is the
/// code read step by step: "up" is Up, "down" is Down, "left" is Left,
/// "right" is Right.
pub proof fn law_a_codex_is_read_step_by_step(code: Seq<String>)
    ensures
        spec_parse_codex(code) is Some <==> forall|i: int| 0 <= i < code.len() ==> {
            let w = (#[trigger] code[i])@;
            w == "up"@ || w == "down"@ || w == "left"@ || w == "right"@
        },
        spec_parse_codex(code) matches Some(c) ==> {
            &&& c.len() == code.len()
            &&& forall|i: int| 0 <= i < code.len() ==> {
                &&& (#[trigger] code[i])@ == "up"@ ==> c[i] == Dir::Up
                &&& code[i]@ == "down"@ ==> c[i] == Dir::Down
                &&& code[i]@ == "left"@ ==> c[i] == Dir::Left
                &&& code[i]@ == "right"@ ==> c[i] == Dir::Right
            }
        },
    decreases code.len(),
{
    reveal_strlit("up");
    reveal_strlit("down");
    reveal_strlit("left");
    reveal_strlit("right");
    if code.len() > 0 {
        let d = code.drop_last();
        law_a_codex_is_read_step_by_step(d);
        law_each_step_word_is_its_direction(code.last()@);
        assert forall|i: int| 0 <= i < d.len() implies #[trigger] code[i] == d[i] by {}
        if spec_parse_codex(code) is Some {
            let c = spec_parse_codex(code)->0;
            assert forall|i: int| 0 <= i < code.len() implies {
                &&& (#[trigger] code[i])@ == "up"@ ==> c[i] == Dir::Up
                &&& code[i]@ == "down"@ ==> c[i] == Dir::Down
                &&& code[i]@ == "left"@ ==> c[i] == Dir::Left
                &&& code[i]@ == "right"@ ==> c[i] == Dir::Right
            } by {
                if i < d.len() {
                    assert(code[i] == d[i]);
                }
            }
        }
        if forall|i: int| 0 <= i < code.len() ==> {
            let w = (#[trigger] code[i])@;
            w == "up"@ || w == "down"@ || w == "left"@ || w == "right"@
        } {
            assert forall|i: int| 0 <= i < d.len() implies {
                let w = (#[trigger] d[i])@;
                w == "up"@ || w == "down"@ || w == "left"@ || w == "right"@
            } by {
                assert(code[i] == d[i]);
            }
            assert(code[code.len() - 1] == code.last());
        }
    }
}

/// An item of the API comes in with the codex its code spells, step by step.
pub proof fn law_an_api_item_keeps_its_code(item: ApiStratagem, r: Option<RemoteStratagem>)
    requires
        spec_from_api(item, r),
        r is Some,
    ensures
        item.code is Some,
        r->0.codex@.len() == item.code->0@.len(),
        forall|i: int| 0 <= i < item.code->0@.len() ==> {
            &&& (#[trigger] item.code->0@[i])@ == "up"@ ==> r->0.codex@[i] == Dir::Up
            &&& item.code->0@[i]@ == "down"@ ==> r->0.codex@[i] == Dir::Down
            &&& item.code->0@[i]@ == "left"@ ==> r->0.codex@[i] == Dir::Left
            &&& item.code->0@[i]@ == "right"@ ==> r->0.codex@[i] == Dir::Right
        },
{
    law_a_codex_is_read_step_by_step(item.code->0@);
}

/// The image of an API item.
#[derive(Debug, Clone)]
pub struct ApiImage {
    pub url: String,
}

/// An item of the API, with only what the app reads. Everything optional: a
/// missing field drops the item, not the list.
#[derive(Debug, Clone)]
pub struct ApiStratagem {
    pub id: String,
    pub name: Option<String>,
    pub permit_type: Option<String>,
    pub availability: Option<String>,
    pub kind: Option<String>,
    pub trait_ids: Option<Vec<String>>,
    pub code: Option<Vec<String>>,
    pub image: Option<ApiImage>,
}

/// The steps of a codex, when every one of them is a direction.
pub open spec fn spec_parse_codex(code: Seq<String>) -> Option<Seq<Dir>>
    decreases code.len(),
{
    if code.len() == 0 {
        Some(Seq::empty())
    } else {
        match (spec_parse_codex(code.drop_last()), spec_parse_dir(code.last()@)) {
            (Some(prev), Some(d)) => Some(prev.push(d)),
            _ => None,
        }
    }
}

fn parse_codex(code: &Vec<String>) -> (r: Option<Vec<Dir>>)
    ensures
        r is None <==> spec_parse_codex(code@) is None,
        r matches Some(v) ==> spec_parse_codex(code@) == Some(v@),
{
    let mut out: Vec<Dir> = Vec::new();
    let mut i: usize = 0;
    assert(code@.take(0) =~= Seq::<String>::empty());
    while i < code.len()
        invariant
            i <= code@.len(),
            spec_parse_codex(code@.take(i as int)) == Some(out@),
        decreases code.len() - i,
    {
        assert(code@.take(i + 1).drop_last() =~= code@.take(i as int));
        match parse_dir(code[i].as_str()) {
            Some(d) => {
                out.push(d);
            },
            None => {
                proof {
                    lemma_parse_codex_prefix(code@, i as int + 1);
                }
                return None;
            },
        }
        i += 1;
    }
    assert(code@.take(code@.len() as int) =~= code@);
    Some(out)
}

/// A codex that fails on a prefix fails on the whole.
proof fn lemma_parse_codex_prefix(code: Seq<String>, k: int)
    requires
        0 <= k <= code.len(),
        spec_parse_codex(code.take(k)) is None,
    ensures
        spec_parse_codex(code) is None,
    decreases code.len() - k,
{
    if k < code.len() {
        assert(code.take(k + 1).drop_last() =~= code.take(k));
        lemma_parse_codex_prefix(code, k + 1);
    } else {
        assert(code.take(k) =~= code);
    }
}

/// A loadout item with every field present, a codex of directions and a
/// loadout permit.
pub open spec fn api_item_usable(item: ApiStratagem) -> bool {
    &&& (item.availability matches Some(a) && a@ == "loadout"@)
    &&& (item.code matches Some(code) && spec_parse_codex(code@) is Some)
    &&& (item.permit_type matches Some(p) && spec_permit_tag(p@) is Some)
    &&& item.name is Some
    &&& item.kind is Some
    &&& item.image is Some
}

/// What an API item becomes: a loadout item with every field present, a
/// codex of directions and a loadout permit, that passes the validation.
pub open spec fn spec_from_api(item: ApiStratagem, r: Option<RemoteStratagem>) -> bool {
    if !api_item_usable(item) {
        r is None
    } else {
        let made = |x: RemoteStratagem| {
            &&& x.permit@ == spec_permit_tag(item.permit_type->0@)->0
            &&& x.slug@ == item.id@
            &&& x.nome@ == item.name->0@
            &&& x.kind@ == item.kind->0@
            &&& traits_of(x) == (match item.trait_ids {
                Some(t) => text::views(t@),
                None => Seq::empty(),
            })
            &&& x.codex@ == spec_parse_codex(item.code->0@)->0
            &&& x.image@ == item.image->0.url@
        };
        match r {
            Some(x) => made(x) && spec_is_valid(x),
            None => forall|x: RemoteStratagem| made(x) ==> !spec_is_valid(x),
        }
    }
}

fn copy_strings(v: &Vec<String>) -> (r: Vec<String>)
    ensures
        text::views(r@) == text::views(v@),
{
    let mut r: Vec<String> = Vec::new();
    let mut i: usize = 0;
    while i < v.len()
        invariant
            i <= v@.len(),
            r@.len() == i,
            text::views(r@) == text::views(v@.take(i as int)),
        decreases v.len() - i,
    {
        let c = v[i].clone();
        assert(c@ == v@[i as int]@);
        let ghost before = r@;
        r.push(c);
        assert(r@ == before.push(c));
        assert forall|k: int| 0 <= k < i + 1 implies #[trigger] text::views(r@)[k] == text::views(v@.take(i + 1))[k] by {
            assert(text::views(r@)[k] == r@[k]@);
            assert(text::views(v@.take(i + 1))[k] == v@[k]@);
            if k < i {
                assert(text::views(before)[k] == text::views(v@.take(i as int))[k]);
                assert(text::views(before)[k] == before[k]@);
                assert(text::views(v@.take(i as int))[k] == v@[k]@);
            }
        }
        assert(text::views(r@) =~= text::views(v@.take(i + 1)));
        i += 1;
    }
    assert(v@.take(v@.len() as int) =~= v@);
    r
}

/// A valid loadout item, or `None` (outside the loadout or with odd data).
pub fn from_api(item: ApiStratagem) -> (r: Option<RemoteStratagem>)
    ensures
        spec_from_api(item, r),
{
    let loadout = match &item.availability {
        Some(a) => text::str_eq(a.as_str(), "loadout"),
        None => false,
    };
    if !loadout {
        return None;
    }
    let codex = match &item.code {
        Some(code) => parse_codex(code),
        None => None,
    };
    let codex = match codex {
        Some(c) => c,
        None => {
            return None;
        },
    };
    let permit = match &item.permit_type {
        Some(p) => permit_tag(p.as_str()),
        None => None,
    };
    let permit = match permit {
        Some(p) => p,
        None => {
            return None;
        },
    };
    if item.name.is_none() || item.kind.is_none() || item.image.is_none() {
        return None;
    }
    let traits = match &item.trait_ids {
        Some(t) => copy_strings(t),
        None => Vec::new(),
    };
    let remote = RemoteStratagem {
        permit: text::owned(permit),
        slug: item.id.clone(),
        nome: match &item.name {
            Some(n) => n.clone(),
            None => String::new(),
        },
        kind: match &item.kind {
            Some(k) => k.clone(),
            None => String::new(),
        },
        traits,
        codex,
        image: match &item.image {
            Some(i) => i.url.clone(),
            None => String::new(),
        },
    };
    proof {
        if item.trait_ids is None {
            assert(traits_of(remote) =~= Seq::<Seq<char>>::empty());
        }
    }
    if remote.is_valid() {
        Some(remote)
    } else {
        proof {
            assert forall|x: RemoteStratagem| #[trigger] spec_is_valid(x) && {
                &&& x.permit@ == remote.permit@
                &&& x.slug@ == remote.slug@
                &&& x.nome@ == remote.nome@
                &&& x.kind@ == remote.kind@
                &&& x.codex@ == remote.codex@
                &&& x.image@ == remote.image@
            } implies spec_is_valid(remote) by {}
        }
        None
    }
}


// --- Codex changes ---

/// `a` is a prefix of `b` (a codex that starts another).
pub open spec fn is_prefix(a: Seq<Dir>, b: Seq<Dir>) -> bool {
    a.len() <= b.len() && b.take(a.len() as int) == a
}

/// One of the two codexes starts with the other: the shorter would fire in
/// the middle of the longer.
pub open spec fn related(a: Seq<Dir>, b: Seq<Dir>) -> bool {
    is_prefix(a, b) || is_prefix(b, a)
}

/// The codexes of a list of stratagems.
pub open spec fn codexes_of(list: Seq<Stratagem>) -> Seq<Seq<Dir>> {
    list.map_values(|s: Stratagem| s.codex@)
}

/// The codex equals another of the list (other than the one at `skip`) or a
/// fixed support, or one of them starts with the other.
pub open spec fn spec_clashes(codex: Seq<Dir>, codexes: Seq<Seq<Dir>>, skip: Option<int>) -> bool {
    ||| exists|i: int| 0 <= i < codexes.len() && skip != Some(i) && related(#[trigger] codexes[i], codex)
    ||| exists|k: int| 0 <= k < 3 && related(#[trigger] data::support_codexes()[k], codex)
}

fn prefix_of(a: &Vec<Dir>, b: &Vec<Dir>) -> (r: bool)
    ensures
        r == is_prefix(a@, b@),
{
    if a.len() > b.len() {
        return false;
    }
    let mut i: usize = 0;
    while i < a.len()
        invariant
            a.len() <= b.len(),
            i <= a.len(),
            forall|j: int| 0 <= j < i ==> a@[j] == b@[j],
        decreases a.len() - i,
    {
        if a[i] != b[i] {
            assert(b@.take(a@.len() as int)[i as int] != a@[i as int]);
            return false;
        }
        i += 1;
    }
    assert(b@.take(a@.len() as int) =~= a@);
    true
}

fn related_exec(a: &Vec<Dir>, b: &Vec<Dir>) -> (r: bool)
    ensures
        r == related(a@, b@),
{
    prefix_of(a, b) || prefix_of(b, a)
}

/// Whether the codex clashes with the list (except the entry at `skip`) or
/// with a fixed support.
pub fn clashes(codex: &Vec<Dir>, list: &[Stratagem], skip: Option<usize>) -> (r: bool)
    ensures
        r == spec_clashes(codex@, codexes_of(list@), match skip {
            Some(k) => Some(k as int),
            None => None,
        }),
{
    let ghost sk: Option<int> = match skip {
        Some(k) => Some(k as int),
        None => None,
    };
    let ghost cs = codexes_of(list@);
    let mut i: usize = 0;
    while i < list.len()
        invariant
            i <= list@.len(),
            cs == codexes_of(list@),
            sk == (match skip {
                Some(k) => Some(k as int),
                None => None,
            }),
            forall|j: int| 0 <= j < i && sk != Some(j) ==> !related(#[trigger] cs[j], codex@),
        decreases list.len() - i,
    {
        let is_skip = match skip {
            Some(k) => k == i,
            None => false,
        };
        if !is_skip && related_exec(&list[i].codex, codex) {
            assert(related(cs[i as int], codex@));
            return true;
        }
        i += 1;
    }
    let supports = data::support_strats();
    let mut k: usize = 0;
    while k < 3
        invariant
            k <= 3,
            supports@.len() == 3,
            forall|j: int| 0 <= j < 3 ==> (#[trigger] supports@[j]).codex@ == data::support_codexes()[j],
            forall|j: int| 0 <= j < k ==> !related(#[trigger] data::support_codexes()[j], codex@),
        decreases 3 - k,
    {
        if related_exec(&supports[k].codex, codex) {
            assert(related(data::support_codexes()[k as int], codex@));
            return true;
        }
        k += 1;
    }
    false
}

/// Index of the remote entry for a slug: with repeated slugs, the last one.
pub open spec fn remote_for(remote: Seq<RemoteStratagem>, slug: Seq<char>) -> Option<int>
    decreases remote.len(),
{
    if remote.len() == 0 {
        None
    } else if remote.last().slug@ == slug {
        Some(remote.len() - 1)
    } else {
        remote_for(remote.drop_last(), slug)
    }
}

proof fn lemma_remote_for(remote: Seq<RemoteStratagem>, slug: Seq<char>)
    ensures
        remote_for(remote, slug) matches Some(j) ==> 0 <= j < remote.len() && remote[j].slug@ == slug,
    decreases remote.len(),
{
    if remote.len() > 0 && remote.last().slug@ != slug {
        lemma_remote_for(remote.drop_last(), slug);
    }
}

fn find_remote(remote: &[RemoteStratagem], slug: &str) -> (r: Option<usize>)
    ensures
        r is None <==> remote_for(remote@, slug@) is None,
        r matches Some(j) ==> remote_for(remote@, slug@) == Some(j as int) && j < remote@.len(),
{
    let mut n: usize = remote.len();
    assert(remote@.take(n as int) =~= remote@);
    while n > 0
        invariant
            n <= remote@.len(),
            remote_for(remote@, slug@) == remote_for(remote@.take(n as int), slug@),
        decreases n,
    {
        assert(remote@.take(n as int).last() == remote@[n - 1]);
        if string_chars_eq(&remote[n - 1].slug, slug) {
            return Some(n - 1);
        }
        assert(remote@.take(n as int).drop_last() =~= remote@.take(n - 1));
        n -= 1;
    }
    None
}

/// The codex the API wants for each stratagem of the list: the one of its
/// remote entry, or its own when the API does not have it.
pub open spec fn targets(list: Seq<Stratagem>, remote: Seq<RemoteStratagem>) -> Seq<Seq<Dir>> {
    Seq::new(list.len(), |i: int| match remote_for(remote, list[i].slug@) {
        Some(j) => remote[j].codex@,
        None => list[i].codex@,
    })
}

/// The indices below `n`, in order, whose codex differs from the target.
pub open spec fn changed_upto(base: Seq<Seq<Dir>>, target: Seq<Seq<Dir>>, n: int) -> Seq<int>
    decreases n,
{
    if n <= 0 {
        Seq::empty()
    } else if target[n - 1] != base[n - 1] {
        changed_upto(base, target, n - 1).push(n - 1)
    } else {
        changed_upto(base, target, n - 1)
    }
}

/// The codexes with the target taken at the indices of `keep`.
pub open spec fn applied(base: Seq<Seq<Dir>>, target: Seq<Seq<Dir>>, keep: Seq<int>) -> Seq<Seq<Dir>> {
    Seq::new(base.len(), |i: int| if keep.contains(i) { target[i] } else { base[i] })
}

/// The kept indices whose codex clashes with the rest of the list.
pub open spec fn clashing(cur: Seq<Seq<Dir>>, keep: Seq<int>) -> Seq<int>
    decreases keep.len(),
{
    if keep.len() == 0 {
        Seq::empty()
    } else if spec_clashes(cur[keep.last()], cur, Some(keep.last())) {
        clashing(cur, keep.drop_last()).push(keep.last())
    } else {
        clashing(cur, keep.drop_last())
    }
}

/// `keep` without the indices in `out`, in order.
pub open spec fn without(keep: Seq<int>, out: Seq<int>) -> Seq<int>
    decreases keep.len(),
{
    if keep.len() == 0 {
        Seq::empty()
    } else if out.contains(keep.last()) {
        without(keep.drop_last(), out)
    } else {
        without(keep.drop_last(), out).push(keep.last())
    }
}

pub proof fn lemma_clashing_in_keep(cur: Seq<Seq<Dir>>, keep: Seq<int>)
    ensures
        forall|i: int| #[trigger] clashing(cur, keep).contains(i) ==> keep.contains(i),
        clashing(cur, keep).len() == 0 <==> forall|k: int| 0 <= k < keep.len() ==> !spec_clashes(cur[#[trigger] keep[k]], cur, Some(keep[k])),
    decreases keep.len(),
{
    if keep.len() > 0 {
        lemma_clashing_in_keep(cur, keep.drop_last());
        assert forall|i: int| #[trigger] clashing(cur, keep).contains(i) implies keep.contains(i) by {
            if clashing(cur, keep.drop_last()).contains(i) {
                let k = choose|k: int| 0 <= k < keep.drop_last().len() && keep.drop_last()[k] == i;
                assert(keep[k] == i);
            } else {
                assert(keep[keep.len() - 1] == i);
            }
        }
        if clashing(cur, keep).len() == 0 {
            assert forall|k: int| 0 <= k < keep.len() implies !spec_clashes(cur[#[trigger] keep[k]], cur, Some(keep[k])) by {
                if k < keep.len() - 1 {
                    assert(keep.drop_last()[k] == keep[k]);
                }
            }
        } else {
            let c = clashing(cur, keep);
            let x = c.last();
            assert(c.contains(x));
            let k = choose|k: int| 0 <= k < keep.len() && keep[k] == x;
            if !spec_clashes(cur[keep.last()], cur, Some(keep.last())) {
                let d = clashing(cur, keep.drop_last());
                assert(d.contains(x));
                let kk = choose|kk: int| 0 <= kk < keep.drop_last().len() && keep.drop_last()[kk] == x;
                assert(spec_clashes(cur[keep.drop_last()[kk]], cur, Some(keep.drop_last()[kk]))) by {
                    lemma_clashing_flagged(cur, keep.drop_last(), x);
                }
                assert(keep[kk] == x);
            }
        }
    }
}

pub proof fn lemma_clashing_flagged(cur: Seq<Seq<Dir>>, keep: Seq<int>, x: int)
    requires
        clashing(cur, keep).contains(x),
    ensures
        spec_clashes(cur[x], cur, Some(x)),
    decreases keep.len(),
{
    if keep.len() > 0 {
        if clashing(cur, keep.drop_last()).contains(x) {
            lemma_clashing_flagged(cur, keep.drop_last(), x);
        } else {
            let c = clashing(cur, keep);
            let i = choose|i: int| 0 <= i < c.len() && c[i] == x;
            assert(c == clashing(cur, keep.drop_last()).push(keep.last()));
            if i < c.len() - 1 {
                assert(clashing(cur, keep.drop_last())[i] == x);
            }
        }
    }
}

pub proof fn lemma_without_shrinks(keep: Seq<int>, out: Seq<int>)
    ensures
        without(keep, out).len() <= keep.len(),
        (exists|i: int| 0 <= i < keep.len() && out.contains(#[trigger] keep[i])) ==> without(keep, out).len() < keep.len(),
        forall|i: int| #[trigger] without(keep, out).contains(i) <==> keep.contains(i) && !out.contains(i),
    decreases keep.len(),
{
    if keep.len() > 0 {
        lemma_without_shrinks(keep.drop_last(), out);
        if exists|i: int| 0 <= i < keep.len() && out.contains(#[trigger] keep[i]) {
            let i = choose|i: int| 0 <= i < keep.len() && out.contains(#[trigger] keep[i]);
            if i < keep.len() - 1 {
                assert(keep.drop_last()[i] == keep[i]);
            }
        }
        let d = keep.drop_last();
        let wd = without(d, out);
        let w = without(keep, out);
        let x = keep.last();
        assert forall|i: int| #[trigger] w.contains(i) <==> keep.contains(i) && !out.contains(i) by {
            if keep.contains(i) && !out.contains(i) {
                let k = choose|k: int| 0 <= k < keep.len() && keep[k] == i;
                if k < keep.len() - 1 {
                    assert(d[k] == i);
                    assert(d.contains(i));
                    assert(wd.contains(i));
                    let j = choose|j: int| 0 <= j < wd.len() && wd[j] == i;
                    if !out.contains(x) {
                        assert(w == wd.push(x));
                        assert(w[j] == i);
                    }
                    assert(w.contains(i));
                } else {
                    assert(w == wd.push(x));
                    assert(w[w.len() - 1] == i);
                }
            }
            if w.contains(i) {
                if out.contains(x) {
                    assert(w == wd);
                    let k = choose|k: int| 0 <= k < d.len() && d[k] == i;
                    assert(keep[k] == i);
                } else {
                    assert(w == wd.push(x));
                    let j = choose|j: int| 0 <= j < w.len() && w[j] == i;
                    if j < w.len() - 1 {
                        assert(wd[j] == i);
                        assert(wd.contains(i));
                        let k = choose|k: int| 0 <= k < d.len() && d[k] == i;
                        assert(keep[k] == i);
                    } else {
                        assert(keep[keep.len() - 1] == i);
                    }
                }
            }
        }
    }
}

/// The changes that survive: those that clash with the list as changed go
/// back to the bundled codex, and the check repeats until nothing clashes.
pub open spec fn settle(base: Seq<Seq<Dir>>, target: Seq<Seq<Dir>>, keep: Seq<int>) -> Seq<int>
    decreases keep.len(),
{
    let cur = applied(base, target, keep);
    let bad = clashing(cur, keep);
    if bad.len() == 0 {
        keep
    } else {
        proof {
            lemma_clashing_in_keep(cur, keep);
            lemma_without_shrinks(keep, bad);
            let x = bad[0];
            assert(bad.contains(x));
            assert(keep.contains(x));
        }
        settle(base, target, without(keep, bad))
    }
}

/// The codexes after the update: none when nothing changed or when too many
/// changed at once; otherwise the settled changes.
pub open spec fn updated_codexes(list: Seq<Stratagem>, remote: Seq<RemoteStratagem>) -> Seq<Seq<Dir>> {
    let base = codexes_of(list);
    let target = targets(list, remote);
    let changed = changed_upto(base, target, list.len() as int);
    if changed.len() == 0 || changed.len() > MAX_CODEX_CHANGES {
        base
    } else {
        applied(base, target, settle(base, target, changed))
    }
}


/// Indices as integers.
pub open spec fn ints(v: Seq<usize>) -> Seq<int> {
    v.map_values(|k: usize| k as int)
}

/// The two stratagems agree on everything but the codex.
pub open spec fn same_but_codex(a: Stratagem, b: Stratagem) -> bool {
    &&& a.id == b.id
    &&& a.slug == b.slug
    &&& a.nome == b.nome
    &&& a.imagem == b.imagem
    &&& a.tag == b.tag
    &&& a.kind_hint == b.kind_hint
}

fn same_codex(a: &Vec<Dir>, b: &Vec<Dir>) -> (r: bool)
    ensures
        r == (a@ == b@),
{
    if a.len() != b.len() {
        return false;
    }
    let mut i: usize = 0;
    while i < a.len()
        invariant
            a.len() == b.len(),
            i <= a.len(),
            forall|j: int| 0 <= j < i ==> a@[j] == b@[j],
        decreases a.len() - i,
    {
        if a[i] != b[i] {
            return false;
        }
        i += 1;
    }
    assert(a@ =~= b@);
    true
}

fn index_in(v: &Vec<usize>, x: usize) -> (r: bool)
    ensures
        r == ints(v@).contains(x as int),
{
    let mut i: usize = 0;
    while i < v.len()
        invariant
            i <= v@.len(),
            forall|j: int| 0 <= j < i ==> v@[j] != x,
        decreases v.len() - i,
    {
        if v[i] == x {
            assert(ints(v@)[i as int] == x as int);
            return true;
        }
        i += 1;
    }
    assert(!ints(v@).contains(x as int)) by {
        if ints(v@).contains(x as int) {
            let k = choose|k: int| 0 <= k < ints(v@).len() && ints(v@)[k] == x as int;
            assert(v@[k] == x);
        }
    }
    false
}

fn set_codex(list: &mut Vec<Stratagem>, i: usize, codex: Vec<Dir>)
    requires
        i < old(list)@.len(),
    ensures
        final(list)@.len() == old(list)@.len(),
        final(list)@[i as int].codex@ == codex@,
        same_but_codex(final(list)@[i as int], old(list)@[i as int]),
        forall|j: int| 0 <= j < old(list)@.len() && j != i ==> final(list)@[j] == old(list)@[j],
{
    list[i].codex = codex;
}

/// Takes the codex the API gives for a stratagem when it changed in a patch.
///
/// The guard is the rule the game follows: no codex equal to another nor
/// starting with another, or the shorter would fire in the middle of the
/// longer. The changes are checked together, against the list as changed (two
/// stratagems that swap codexes pass); one that clashes goes back to the
/// bundled codex, and the check repeats until nothing clashes. More changes
/// than [`MAX_CODEX_CHANGES`] at once and none applies.
pub fn update_codexes(list: &mut Vec<Stratagem>, remote: &[RemoteStratagem])
    ensures
        final(list)@.len() == old(list)@.len(),
        forall|i: int| 0 <= i < old(list)@.len() ==> same_but_codex(#[trigger] final(list)@[i], old(list)@[i]),
        codexes_of(final(list)@) == updated_codexes(old(list)@, remote@),
{
    let ghost base = codexes_of(old(list)@);
    let ghost target = targets(old(list)@, remote@);
    let mut olds: Vec<Vec<Dir>> = Vec::new();
    let mut news: Vec<Vec<Dir>> = Vec::new();
    let mut changed: Vec<usize> = Vec::new();
    let mut i: usize = 0;
    while i < list.len()
        invariant
            *list == *old(list),
            base == codexes_of(old(list)@),
            target == targets(old(list)@, remote@),
            i <= list@.len(),
            olds@.len() == i,
            news@.len() == i,
            forall|j: int| 0 <= j < i ==> (#[trigger] olds@[j])@ == base[j],
            forall|j: int| 0 <= j < i ==> (#[trigger] news@[j])@ == target[j],
            ints(changed@) == changed_upto(base, target, i as int),
            forall|j: int| 0 <= j < changed@.len() ==> (#[trigger] changed@[j]) < i,
        decreases list.len() - i,
    {
        let t = match find_remote(remote, list[i].slug.as_str()) {
            Some(j) => hooks::copy_codex(&remote[j].codex),
            None => hooks::copy_codex(&list[i].codex),
        };
        let o = hooks::copy_codex(&list[i].codex);
        assert(t@ == target[i as int]);
        assert(o@ == base[i as int]);
        if !same_codex(&t, &o) {
            changed.push(i);
            assert(ints(changed@) =~= changed_upto(base, target, i as int).push(i as int));
        }
        olds.push(o);
        news.push(t);
        i += 1;
    }
    if changed.len() == 0 || changed.len() > MAX_CODEX_CHANGES {
        assert(codexes_of(list@) =~= updated_codexes(old(list)@, remote@));
        return;
    }
    let ghost first = ints(changed@);
    // The target codex goes to every changed stratagem.
    let mut k: usize = 0;
    while k < list.len()
        invariant
            list@.len() == old(list)@.len(),
            k <= list@.len(),
            olds@.len() == list@.len(),
            news@.len() == list@.len(),
            forall|j: int| 0 <= j < list@.len() ==> (#[trigger] olds@[j])@ == base[j],
            forall|j: int| 0 <= j < list@.len() ==> (#[trigger] news@[j])@ == target[j],
            base == codexes_of(old(list)@),
            target == targets(old(list)@, remote@),
            base.len() == list@.len(),
            target.len() == list@.len(),
            ints(changed@) == first,
            forall|j: int| 0 <= j < list@.len() ==> same_but_codex(#[trigger] list@[j], old(list)@[j]),
            forall|j: int| 0 <= j < k ==> (#[trigger] list@[j]).codex@ == applied(base, target, first)[j],
            forall|j: int| k <= j < list@.len() ==> (#[trigger] list@[j]).codex@ == base[j],
        decreases list.len() - k,
    {
        if index_in(&changed, k) {
            let c = hooks::copy_codex(&news[k]);
            set_codex(list, k, c);
        }
        k += 1;
    }
    assert(codexes_of(list@) =~= applied(base, target, first));
    loop
        invariant
            list@.len() == old(list)@.len(),
            olds@.len() == list@.len(),
            news@.len() == list@.len(),
            forall|j: int| 0 <= j < list@.len() ==> (#[trigger] olds@[j])@ == base[j],
            forall|j: int| 0 <= j < list@.len() ==> (#[trigger] news@[j])@ == target[j],
            base == codexes_of(old(list)@),
            target == targets(old(list)@, remote@),
            base.len() == list@.len(),
            target.len() == list@.len(),
            forall|j: int| 0 <= j < list@.len() ==> same_but_codex(#[trigger] list@[j], old(list)@[j]),
            forall|j: int| 0 <= j < changed@.len() ==> (#[trigger] changed@[j]) < list@.len(),
            codexes_of(list@) == applied(base, target, ints(changed@)),
            settle(base, target, first) == settle(base, target, ints(changed@)),
        ensures
            list@.len() == old(list)@.len(),
            forall|j: int| 0 <= j < list@.len() ==> same_but_codex(#[trigger] list@[j], old(list)@[j]),
            codexes_of(list@) == applied(base, target, settle(base, target, first)),
        decreases changed.len(),
    {
        let ghost cur = codexes_of(list@);
        let ghost keep = ints(changed@);
        let mut bad: Vec<usize> = Vec::new();
        let mut m: usize = 0;
        assert(keep.take(0) =~= Seq::<int>::empty());
        while m < changed.len()
            invariant
                m <= changed@.len(),
                keep == ints(changed@),
                cur == codexes_of(list@),
                forall|j: int| 0 <= j < changed@.len() ==> (#[trigger] changed@[j]) < list@.len(),
                ints(bad@) == clashing(cur, keep.take(m as int)),
                forall|j: int| 0 <= j < bad@.len() ==> (#[trigger] bad@[j]) < list@.len(),
            decreases changed.len() - m,
        {
            let c = changed[m];
            assert(keep.take(m + 1).drop_last() =~= keep.take(m as int));
            assert(keep.take(m + 1).last() == c as int);
            assert(cur[c as int] == list@[c as int].codex@);
            if clashes(&list[c].codex, list.as_slice(), Some(c)) {
                bad.push(c);
                assert(ints(bad@) =~= clashing(cur, keep.take(m as int)).push(c as int));
            }
            m += 1;
        }
        assert(keep.take(changed@.len() as int) =~= keep);
        if bad.len() == 0 {
            break;
        }
        proof {
            lemma_clashing_in_keep(cur, keep);
            lemma_without_shrinks(keep, ints(bad@));
            let x = ints(bad@)[0];
            assert(ints(bad@).contains(x));
            assert(keep.contains(x));
        }
        let mut kept: Vec<usize> = Vec::new();
        let mut n: usize = 0;
        while n < changed.len()
            invariant
                n <= changed@.len(),
                keep == ints(changed@),
                forall|j: int| 0 <= j < changed@.len() ==> (#[trigger] changed@[j]) < list@.len(),
                forall|j: int| 0 <= j < kept@.len() ==> (#[trigger] kept@[j]) < list@.len(),
                ints(kept@) == without(keep.take(n as int), ints(bad@)),
            decreases changed.len() - n,
        {
            let c = changed[n];
            assert(keep.take(n + 1).drop_last() =~= keep.take(n as int));
            assert(keep.take(n + 1).last() == c as int);
            if !index_in(&bad, c) {
                kept.push(c);
                assert(ints(kept@) =~= without(keep.take(n as int), ints(bad@)).push(c as int));
            }
            n += 1;
        }
        assert(keep.take(changed@.len() as int) =~= keep);
        let ghost next = without(keep, ints(bad@));
        assert(ints(kept@) == next);
        let mut q: usize = 0;
        while q < bad.len()
            invariant
                q <= bad@.len(),
                list@.len() == old(list)@.len(),
                olds@.len() == list@.len(),
                forall|j: int| 0 <= j < list@.len() ==> (#[trigger] olds@[j])@ == base[j],
                base.len() == list@.len(),
                forall|j: int| 0 <= j < list@.len() ==> same_but_codex(#[trigger] list@[j], old(list)@[j]),
                forall|j: int| 0 <= j < bad@.len() ==> (#[trigger] bad@[j]) < list@.len(),
                forall|j: int| 0 <= j < list@.len() ==> (#[trigger] list@[j]).codex@ == (
                    if ints(bad@).take(q as int).contains(j) { base[j] } else { cur[j] }),
            decreases bad.len() - q,
        {
            let c = bad[q];
            let o = hooks::copy_codex(&olds[c]);
            set_codex(list, c, o);
            proof {
                assert forall|j: int| 0 <= j < list@.len() implies (#[trigger] list@[j]).codex@ == (
                    if ints(bad@).take(q + 1).contains(j) { base[j] } else { cur[j] }) by {
                    if ints(bad@).take(q as int).contains(j) {
                        let w = choose|w: int| 0 <= w < q && #[trigger] ints(bad@).take(q as int)[w] == j;
                        assert(ints(bad@).take(q + 1)[w] == j);
                    }
                    if j == c as int {
                        assert(ints(bad@).take(q + 1)[q as int] == j);
                    } else if ints(bad@).take(q + 1).contains(j) {
                        let w = choose|w: int| 0 <= w < q + 1 && #[trigger] ints(bad@).take(q + 1)[w] == j;
                        assert(ints(bad@).take(q as int)[w] == j);
                    }
                }
            }
            q += 1;
        }
        assert(ints(bad@).take(bad@.len() as int) =~= ints(bad@));
        proof {
            lemma_clashing_in_keep(cur, keep);
            assert forall|j: int| 0 <= j < list@.len() implies (#[trigger] codexes_of(list@)[j]) == applied(base, target, next)[j] by {
                assert(codexes_of(list@)[j] == list@[j].codex@);
                if ints(bad@).contains(j) {
                    assert(!next.contains(j));
                } else if keep.contains(j) {
                    assert(next.contains(j));
                }
            }
            assert(codexes_of(list@) =~= applied(base, target, next));
        }
        changed = kept;
    }
}


proof fn lemma_settle_clear(base: Seq<Seq<Dir>>, target: Seq<Seq<Dir>>, keep: Seq<int>)
    ensures
        clashing(applied(base, target, settle(base, target, keep)), settle(base, target, keep)).len() == 0,
    decreases keep.len(),
{
    let cur = applied(base, target, keep);
    let bad = clashing(cur, keep);
    if bad.len() != 0 {
        lemma_clashing_in_keep(cur, keep);
        lemma_without_shrinks(keep, bad);
        let x = bad[0];
        assert(bad.contains(x));
        assert(keep.contains(x));
        lemma_settle_clear(base, target, without(keep, bad));
    }
}

/// After an update, every stratagem whose codex changed carries one that
/// clashes with no other codex of the list nor with a fixed support.
pub proof fn law_changed_codexes_never_clash(list: Seq<Stratagem>, remote: Seq<RemoteStratagem>, i: int)
    requires
        0 <= i < list.len(),
        updated_codexes(list, remote)[i] != codexes_of(list)[i],
    ensures
        !spec_clashes(updated_codexes(list, remote)[i], updated_codexes(list, remote), Some(i)),
{
    let base = codexes_of(list);
    let target = targets(list, remote);
    let changed = changed_upto(base, target, list.len() as int);
    let keep = settle(base, target, changed);
    let cur = applied(base, target, keep);
    lemma_settle_clear(base, target, changed);
    lemma_clashing_in_keep(cur, keep);
    assert(keep.contains(i));
    let k = choose|k: int| 0 <= k < keep.len() && keep[k] == i;
    assert(!spec_clashes(cur[keep[k]], cur, Some(keep[k])));
}

/// An update keeps the codexes of a list apart: when no two codexes of the
/// list clash (equal, or one the start of the other, or of a fixed support),
/// none clash after the update either. Each stratagem keeps its codex or takes
/// the one the API gives it, and more than [`MAX_CODEX_CHANGES`] changes at
/// once leave every codex as it was.
pub proof fn law_an_update_keeps_every_codex_apart(list: Seq<Stratagem>, remote: Seq<RemoteStratagem>)
    requires
        forall|i: int| 0 <= i < list.len() ==> !spec_clashes(#[trigger] codexes_of(list)[i], codexes_of(list), Some(i)),
    ensures
        updated_codexes(list, remote).len() == list.len(),
        changed_upto(codexes_of(list), targets(list, remote), list.len() as int).len() > MAX_CODEX_CHANGES
            ==> updated_codexes(list, remote) == codexes_of(list),
        forall|i: int| 0 <= i < list.len() ==> #[trigger] updated_codexes(list, remote)[i] == codexes_of(list)[i]
            || updated_codexes(list, remote)[i] == targets(list, remote)[i],
        forall|i: int| 0 <= i < list.len() ==> !spec_clashes(#[trigger] updated_codexes(list, remote)[i], updated_codexes(list, remote), Some(i)),
{
    let base = codexes_of(list);
    let u = updated_codexes(list, remote);
    assert(u.len() == list.len());
    assert forall|i: int| 0 <= i < list.len() implies !spec_clashes(#[trigger] u[i], u, Some(i)) by {
        if u[i] != base[i] {
            law_changed_codexes_never_clash(list, remote, i);
        } else {
            assert(!spec_clashes(base[i], base, Some(i)));
            assert forall|j: int| 0 <= j < u.len() && Some(i) != Some(j) implies !related(#[trigger] u[j], u[i]) by {
                if u[j] == base[j] {
                    assert(!related(base[j], base[i]));
                } else {
                    law_changed_codexes_never_clash(list, remote, j);
                    assert(!related(u[i], u[j]));
                }
            }
        }
    }
}

// --- Placing a new stratagem ---

/// The view of a stratagem: id, slug, name, image, tags, codex, classification.
pub open spec fn strat_view(s: Stratagem) -> (u32, Seq<char>, Seq<char>, Seq<char>, Seq<Seq<char>>, Seq<Dir>, Option<StratKind>) {
    (s.id, s.slug@, s.nome@, s.imagem@, data::tags_of(&s), s.codex@, s.kind_hint)
}

/// The views of a list of stratagems.
pub open spec fn strat_views(list: Seq<Stratagem>) -> Seq<(u32, Seq<char>, Seq<char>, Seq<char>, Seq<Seq<char>>, Seq<Dir>, Option<StratKind>)> {
    list.map_values(|s: Stratagem| strat_view(s))
}

/// A list of optional strings as optional character sequences.
pub open spec fn opt_views(v: Seq<Option<String>>) -> Seq<Option<Seq<char>>> {
    v.map_values(|o: Option<String>| match o {
        Some(s) => Some(s@),
        None => None,
    })
}

/// First index of the subgroup in `groups`.
pub open spec fn first_of_group(groups: Seq<Option<Seq<char>>>, g: Seq<char>, from: int) -> Option<int>
    decreases groups.len() - from,
{
    if from >= groups.len() || from < 0 {
        None
    } else if groups[from] == Some(g) {
        Some(from)
    } else {
        first_of_group(groups, g, from + 1)
    }
}

/// First index at or after `from` that is not in the subgroup (or the end).
pub open spec fn run_end(groups: Seq<Option<Seq<char>>>, g: Seq<char>, from: int) -> int
    decreases groups.len() - from,
{
    if from >= groups.len() || from < 0 {
        from
    } else if groups[from] == Some(g) {
        run_end(groups, g, from + 1)
    } else {
        from
    }
}

/// Last index whose first tag is `tag`.
pub open spec fn last_with_tag(tags: Seq<Seq<Seq<char>>>, tag: Seq<char>) -> Option<int>
    decreases tags.len(),
{
    if tags.len() == 0 {
        None
    } else if tags.last().len() > 0 && tags.last()[0] == tag {
        Some(tags.len() - 1)
    } else {
        last_with_tag(tags.drop_last(), tag)
    }
}

/// Where a new stratagem goes: at the end of the first run of its subgroup;
/// a subgroup that does not exist yet goes to the end of the section of its
/// color, and a color with nothing goes to the end.
pub open spec fn spec_insertion_point(groups: Seq<Option<Seq<char>>>, tags: Seq<Seq<Seq<char>>>, g: Seq<char>, permit: Seq<char>) -> int {
    match first_of_group(groups, g, 0) {
        Some(start) => run_end(groups, g, start),
        None => match last_with_tag(tags, permit) {
            Some(last) => last + 1,
            None => tags.len() as int,
        },
    }
}

proof fn lemma_run_end(groups: Seq<Option<Seq<char>>>, g: Seq<char>, from: int)
    requires
        0 <= from <= groups.len(),
    ensures
        from <= run_end(groups, g, from) <= groups.len(),
    decreases groups.len() - from,
{
    if from < groups.len() && groups[from] == Some(g) {
        lemma_run_end(groups, g, from + 1);
    }
}

proof fn lemma_first_of_group(groups: Seq<Option<Seq<char>>>, g: Seq<char>, from: int)
    requires
        0 <= from,
    ensures
        first_of_group(groups, g, from) matches Some(i) ==> from <= i < groups.len() && groups[i] == Some(g),
    decreases groups.len() - from,
{
    if from < groups.len() && groups[from] != Some(g) {
        lemma_first_of_group(groups, g, from + 1);
    }
}

proof fn lemma_last_with_tag(tags: Seq<Seq<Seq<char>>>, tag: Seq<char>)
    ensures
        last_with_tag(tags, tag) matches Some(i) ==> 0 <= i < tags.len(),
    decreases tags.len(),
{
    if tags.len() > 0 && !(tags.last().len() > 0 && tags.last()[0] == tag) {
        lemma_last_with_tag(tags.drop_last(), tag);
    }
}

/// The tags of every stratagem of a list.
pub open spec fn tags_list(list: Seq<Stratagem>) -> Seq<Seq<Seq<char>>> {
    list.map_values(|s: Stratagem| data::tags_of(&s))
}

fn same_group(entry: &Option<String>, g: &Vec<char>) -> (r: bool)
    ensures
        r == (match entry {
            Some(s) => Some(s@),
            None => None,
        } == Some(g@)),
{
    match entry {
        Some(s) => {
            let c = text::chars_of(s.as_str());
            text::chars_eq(&c, g)
        },
        None => false,
    }
}

/// Where a new stratagem of subgroup `group` and color `permit` goes.
pub fn insertion_point(groups: &Vec<Option<String>>, list: &Vec<Stratagem>, group: &Vec<char>, permit: &str) -> (r: usize)
    requires
        groups@.len() == list@.len(),
    ensures
        r == spec_insertion_point(opt_views(groups@), tags_list(list@), group@, permit@),
        r <= list@.len(),
{
    let ghost gs = opt_views(groups@);
    let mut start: usize = 0;
    while start < groups.len()
        invariant
            start <= groups@.len(),
            groups@.len() == list@.len(),
            gs == opt_views(groups@),
            first_of_group(gs, group@, 0) == first_of_group(gs, group@, start as int),
        decreases groups.len() - start,
    {
        if same_group(&groups[start], group) {
            let mut end: usize = start;
            while end + 1 < groups.len() && same_group(&groups[end + 1], group)
                invariant
                    start <= end < groups@.len(),
                    groups@.len() == list@.len(),
                    gs == opt_views(groups@),
                    gs[start as int] == Some(group@),
                    run_end(gs, group@, start as int) == run_end(gs, group@, end as int + 1),
                    gs[end as int] == Some(group@),
                decreases groups.len() - end,
            {
                end += 1;
            }
            proof {
                lemma_run_end(gs, group@, start as int);
            }
            return end + 1;
        }
        start += 1;
    }
    let mut n: usize = list.len();
    let ghost tags = tags_list(list@);
    assert(tags.take(n as int) =~= tags);
    while n > 0
        invariant
            n <= list@.len(),
            tags == tags_list(list@),
            gs == opt_views(groups@),
            first_of_group(gs, group@, 0) is None,
            last_with_tag(tags, permit@) == last_with_tag(tags.take(n as int), permit@),
        decreases n,
    {
        assert(tags.take(n as int).last() == data::tags_of(&list@[n - 1]));
        match list[n - 1].primary_tag() {
            Some(t) => {
                if text::str_eq(t, permit) {
                    return n;
                }
            },
            None => {},
        }
        assert(tags.take(n as int).drop_last() =~= tags.take(n - 1));
        n -= 1;
    }
    list.len()
}


// --- Merge ---

/// What the merge tracks: the list (as views), the subgroup of each entry,
/// the slugs already seen and the ids in use.
pub type MergeState = (
    Seq<(u32, Seq<char>, Seq<char>, Seq<char>, Seq<Seq<char>>, Seq<Dir>, Option<StratKind>)>,
    Seq<Option<Seq<char>>>,
    Seq<Seq<char>>,
    Seq<u32>,
);

/// The codexes of a list of views.
pub open spec fn view_codexes(vs: Seq<(u32, Seq<char>, Seq<char>, Seq<char>, Seq<Seq<char>>, Seq<Dir>, Option<StratKind>)>) -> Seq<Seq<Dir>> {
    vs.map_values(|v: (u32, Seq<char>, Seq<char>, Seq<char>, Seq<Seq<char>>, Seq<Dir>, Option<StratKind>)| v.5)
}

/// The tags of a list of views.
pub open spec fn view_tags(vs: Seq<(u32, Seq<char>, Seq<char>, Seq<char>, Seq<Seq<char>>, Seq<Dir>, Option<StratKind>)>) -> Seq<Seq<Seq<char>>> {
    vs.map_values(|v: (u32, Seq<char>, Seq<char>, Seq<char>, Seq<Seq<char>>, Seq<Dir>, Option<StratKind>)| v.4)
}

/// The id a slug gets.
pub open spec fn spec_stable_id(slug: Seq<char>) -> u32 {
    fnv1a(vstd::utf8::encode_utf8(slug)) | 0x8000_0000
}

/// The view of the stratagem a remote entry becomes.
pub open spec fn remote_view(r: RemoteStratagem, id: u32) -> (u32, Seq<char>, Seq<char>, Seq<char>, Seq<Seq<char>>, Seq<Dir>, Option<StratKind>) {
    (id, r.slug@, text::trim(r.nome@), ICON_PREFIX@ + spec_icon_file(r.image@), remote_tags(r), r.codex@, Some(remote_kind(r)))
}

/// One remote entry through the merge: a slug already seen is skipped; a new
/// one whose codex clashes, or whose id is taken, is skipped too; otherwise
/// it goes in at the insertion point of its subgroup.
pub open spec fn merge_step(st: MergeState, item: RemoteStratagem) -> MergeState {
    let (out, groups, seen, ids) = st;
    if seen.contains(item.slug@) {
        st
    } else if spec_clashes(item.codex@, view_codexes(out), None) {
        (out, groups, seen.push(item.slug@), ids)
    } else if ids.contains(spec_stable_id(item.slug@)) {
        (out, groups, seen.push(item.slug@), ids)
    } else {
        let id = spec_stable_id(item.slug@);
        let g = spec_group_of(item);
        let at = spec_insertion_point(groups, view_tags(out), g, item.permit@);
        (out.insert(at, remote_view(item, id)), groups.insert(at, Some(g)), seen.push(item.slug@), ids.push(id))
    }
}

/// The remote entries through the merge, in order.
pub open spec fn merge_all(st: MergeState, remote: Seq<RemoteStratagem>) -> MergeState
    decreases remote.len(),
{
    if remote.len() == 0 {
        st
    } else {
        merge_step(merge_all(st, remote.drop_last()), remote.last())
    }
}

/// Where the merge starts: the bundled list with its codexes updated, the
/// subgroup of each entry the API knows, its slugs and its ids.
pub open spec fn merge_start(bundled: Seq<Stratagem>, remote: Seq<RemoteStratagem>) -> MergeState {
    let codexes = updated_codexes(bundled, remote);
    (
        Seq::new(bundled.len(), |i: int| {
            let s = bundled[i];
            (s.id, s.slug@, s.nome@, s.imagem@, data::tags_of(&s), codexes[i], s.kind_hint)
        }),
        Seq::new(bundled.len(), |i: int| match remote_for(remote, bundled[i].slug@) {
            Some(j) => Some(spec_group_of(remote[j])),
            None => None,
        }),
        bundled.map_values(|s: Stratagem| s.slug@),
        bundled.map_values(|s: Stratagem| s.id),
    )
}

fn contains_slug(seen: &Vec<String>, slug: &String) -> (r: bool)
    ensures
        r == text::views(seen@).contains(slug@),
{
    let mut i: usize = 0;
    while i < seen.len()
        invariant
            i <= seen@.len(),
            forall|j: int| 0 <= j < i ==> seen@[j]@ != slug@,
        decreases seen.len() - i,
    {
        if string_chars_eq(&seen[i], slug.as_str()) {
            assert(text::views(seen@)[i as int] == slug@);
            return true;
        }
        i += 1;
    }
    assert(!text::views(seen@).contains(slug@)) by {
        if text::views(seen@).contains(slug@) {
            let k = choose|k: int| 0 <= k < text::views(seen@).len() && text::views(seen@)[k] == slug@;
            assert(seen@[k]@ == slug@);
        }
    }
    false
}

fn contains_id(ids: &Vec<u32>, id: u32) -> (r: bool)
    ensures
        r == ids@.contains(id),
{
    let mut i: usize = 0;
    while i < ids.len()
        invariant
            i <= ids@.len(),
            forall|j: int| 0 <= j < i ==> ids@[j] != id,
        decreases ids.len() - i,
    {
        if ids[i] == id {
            assert(ids@[i as int] == id);
            return true;
        }
        i += 1;
    }
    false
}

/// The bundled JSON with the codexes the API changed and the stratagems it
/// does not have. Each new one goes in at the end of the first run of its
/// subgroup; a subgroup that does not exist yet goes to the end of the
/// section of its color.
pub fn merge(bundled: Vec<Stratagem>, remote: &[RemoteStratagem]) -> (r: Vec<Stratagem>)
    ensures
        strat_views(r@) == merge_all(merge_start(bundled@, remote@), remote@).0,
{
    let mut out = bundled;
    update_codexes(&mut out, remote);
    let ghost start = merge_start(bundled@, remote@);
    let mut groups: Vec<Option<String>> = Vec::new();
    let mut seen: Vec<String> = Vec::new();
    let mut ids: Vec<u32> = Vec::new();
    let mut i: usize = 0;
    while i < out.len()
        invariant
            i <= out@.len(),
            out@.len() == bundled@.len(),
            start == merge_start(bundled@, remote@),
            forall|j: int| 0 <= j < bundled@.len() ==> same_but_codex(#[trigger] out@[j], bundled@[j]),
            groups@.len() == i,
            seen@.len() == i,
            opt_views(groups@) == start.1.take(i as int),
            text::views(seen@) == start.2.take(i as int),
            ids@ == start.3.take(i as int),
        decreases out.len() - i,
    {
        assert(same_but_codex(out@[i as int], bundled@[i as int]));
        let ghost gb = groups@;
        let ghost sb = seen@;
        let g = match find_remote(remote, out[i].slug.as_str()) {
            Some(j) => Some(group_of(&remote[j])),
            None => None,
        };
        groups.push(g);
        assert(groups@ == gb.push(g));
        assert forall|j: int| 0 <= j < i + 1 implies #[trigger] opt_views(groups@)[j] == start.1.take(i + 1)[j] by {
            if j < i {
                assert(opt_views(gb)[j] == start.1.take(i as int)[j]);
            }
        }
        assert(opt_views(groups@) =~= start.1.take(i + 1));
        let sl = out[i].slug.clone();
        seen.push(sl);
        assert(seen@ == sb.push(sl));
        assert forall|j: int| 0 <= j < i + 1 implies #[trigger] text::views(seen@)[j] == start.2.take(i + 1)[j] by {
            if j < i {
                assert(text::views(sb)[j] == start.2.take(i as int)[j]);
            }
        }
        assert(text::views(seen@) =~= start.2.take(i + 1));
        ids.push(out[i].id);
        assert(ids@ =~= start.3.take(i + 1));
        i += 1;
    }
    assert(start.1.take(out@.len() as int) =~= start.1);
    assert(start.2.take(out@.len() as int) =~= start.2);
    assert(start.3.take(out@.len() as int) =~= start.3);
    assert(strat_views(out@) =~= start.0);
    assert(remote@.take(0) =~= Seq::<RemoteStratagem>::empty());
    let mut k: usize = 0;
    while k < remote.len()
        invariant
            k <= remote@.len(),
            groups@.len() == out@.len(),
            (strat_views(out@), opt_views(groups@), text::views(seen@), ids@) == merge_all(start, remote@.take(k as int)),
        decreases remote.len() - k,
    {
        let ghost st = merge_all(start, remote@.take(k as int));
        assert(remote@.take(k + 1).drop_last() =~= remote@.take(k as int));
        assert(remote@.take(k + 1).last() == remote@[k as int]);
        let item = &remote[k];
        if contains_slug(&seen, &item.slug) {
            k += 1;
            continue;
        }
        seen.push(item.slug.clone());
        assert(text::views(seen@) =~= st.2.push(item.slug@));
        assert(view_codexes(st.0) =~= codexes_of(out@));
        if clashes(&item.codex, out.as_slice(), None) {
            k += 1;
            continue;
        }
        let id = stable_id(item.slug.as_str());
        if contains_id(&ids, id) {
            k += 1;
            continue;
        }
        ids.push(id);
        let g = group_of(item);
        let gc = text::chars_of(g.as_str());
        assert(view_tags(st.0) =~= tags_list(out@));
        let at = insertion_point(&groups, &out, &gc, item.permit.as_str());
        let s = item.to_stratagem(id);
        let ghost before = out@;
        let ghost gbefore = groups@;
        out.insert(at, s);
        groups.insert(at, Some(g));
        assert(strat_views(out@) =~= strat_views(before).insert(at as int, remote_view(*item, id)));
        assert(opt_views(groups@) =~= opt_views(gbefore).insert(at as int, Some(spec_group_of(*item))));
        k += 1;
    }
    assert(remote@.take(remote@.len() as int) =~= remote@);
    out
}


proof fn lemma_known_slugs_keep_state(st: MergeState, remote: Seq<RemoteStratagem>)
    requires
        forall|j: int| 0 <= j < remote.len() ==> st.2.contains(#[trigger] remote[j].slug@),
    ensures
        merge_all(st, remote) == st,
    decreases remote.len(),
{
    if remote.len() > 0 {
        assert forall|j: int| 0 <= j < remote.drop_last().len() implies st.2.contains(#[trigger] remote.drop_last()[j].slug@) by {
            assert(remote.drop_last()[j] == remote[j]);
        }
        lemma_known_slugs_keep_state(st, remote.drop_last());
        assert(st.2.contains(remote[remote.len() - 1].slug@));
    }
}

/// When the API brings no slug that the bundled list lacks, the merge adds
/// nothing: the list keeps its order, names and tags, and only codexes can
/// change.
pub proof fn law_known_slugs_add_nothing(bundled: Seq<Stratagem>, remote: Seq<RemoteStratagem>)
    requires
        forall|j: int| 0 <= j < remote.len() ==> exists|i: int| 0 <= i < bundled.len() && #[trigger] bundled[i].slug@ == #[trigger] remote[j].slug@,
    ensures
        merge_all(merge_start(bundled, remote), remote) == merge_start(bundled, remote),
{
    let st = merge_start(bundled, remote);
    assert forall|j: int| 0 <= j < remote.len() implies st.2.contains(#[trigger] remote[j].slug@) by {
        let i = choose|i: int| 0 <= i < bundled.len() && #[trigger] bundled[i].slug@ == #[trigger] remote[j].slug@;
        assert(st.2[i] == remote[j].slug@);
    }
    lemma_known_slugs_keep_state(st, remote);
}


proof fn lemma_nothing_changed(base: Seq<Seq<Dir>>, n: int)
    requires
        0 <= n <= base.len(),
    ensures
        changed_upto(base, base, n).len() == 0,
    decreases n,
{
    if n > 0 {
        lemma_nothing_changed(base, n - 1);
    }
}

/// When the API knows every stratagem it serves under the bundled slug and
/// with the bundled codex, the merge gives the bundled list back: nothing is
/// added, and names, order, tags and codexes stay the bundled ones, whatever
/// the API says of names, kinds and traits.
pub proof fn law_an_unchanged_api_leaves_the_list(bundled: Seq<Stratagem>, remote: Seq<RemoteStratagem>)
    requires
        forall|j: int| 0 <= j < remote.len() ==> exists|i: int| 0 <= i < bundled.len() && #[trigger] bundled[i].slug@ == #[trigger] remote[j].slug@,
        forall|i: int, j: int| 0 <= i < bundled.len() && 0 <= j < remote.len() && #[trigger] bundled[i].slug@ == #[trigger] remote[j].slug@
            ==> remote[j].codex@ == bundled[i].codex@,
    ensures
        merge_all(merge_start(bundled, remote), remote).0 == strat_views(bundled),
{
    law_known_slugs_add_nothing(bundled, remote);
    let base = codexes_of(bundled);
    let target = targets(bundled, remote);
    assert forall|i: int| 0 <= i < bundled.len() implies target[i] == base[i] by {
        lemma_remote_for(remote, bundled[i].slug@);
    }
    assert(target =~= base);
    lemma_nothing_changed(base, bundled.len() as int);
    assert(updated_codexes(bundled, remote) == base);
    assert(merge_start(bundled, remote).0 =~= strat_views(bundled));
}

// --- The list and the cache ---

/// `out` is what the items become, in order: each item that passes, as
/// `from_api` makes it.
pub open spec fn collected(items: Seq<ApiStratagem>, out: Seq<RemoteStratagem>) -> bool
    decreases items.len(),
{
    if items.len() == 0 {
        out.len() == 0
    } else if api_item_usable(items.last()) && out.len() > 0 && spec_from_api(items.last(), Some(out.last())) {
        collected(items.drop_last(), out.drop_last())
    } else {
        spec_from_api(items.last(), None) && collected(items.drop_last(), out)
    }
}


/// What the items become is determined up to the text of the fields: two
/// collections of the same items have the same length.
proof fn lemma_collected_unique(items: Seq<ApiStratagem>, a: Seq<RemoteStratagem>, b: Seq<RemoteStratagem>)
    requires
        collected(items, a),
        collected(items, b),
    ensures
        a.len() == b.len(),
    decreases items.len(),
{
    if items.len() > 0 {
        let last = items.last();
        let a_took = api_item_usable(last) && a.len() > 0 && spec_from_api(last, Some(a.last()));
        let b_took = api_item_usable(last) && b.len() > 0 && spec_from_api(last, Some(b.last()));
        if a_took && b_took {
            lemma_collected_unique(items.drop_last(), a.drop_last(), b.drop_last());
        } else if !a_took && !b_took {
            lemma_collected_unique(items.drop_last(), a, b);
        } else if a_took {
            assert(spec_from_api(last, None));
            let x = a.last();
            assert(spec_is_valid(x));
        } else {
            assert(spec_from_api(last, None));
            let x = b.last();
            assert(spec_is_valid(x));
        }
    }
}

/// The API answer reduced to the valid loadout stratagems; `None` when fewer
/// than [`MIN_LOADOUT`] remain: then the API is broken and the whole list is
/// refused.
pub fn loadout_list(items: Vec<ApiStratagem>) -> (r: Option<Vec<RemoteStratagem>>)
    ensures
        match r {
            Some(list) => collected(items@, list@) && list@.len() >= MIN_LOADOUT,
            None => forall|list: Seq<RemoteStratagem>| collected(items@, list) ==> list.len() < MIN_LOADOUT,
        },
{
    let ghost all = items@;
    let n: usize = items.len();
    let mut rest = items;
    let mut out: Vec<RemoteStratagem> = Vec::new();
    let mut i: usize = 0;
    assert(all.take(0) =~= Seq::<ApiStratagem>::empty());
    assert(all.skip(0) =~= all);
    while rest.len() > 0
        invariant
            i <= all.len(),
            all.len() == n,
            rest@ == all.skip(i as int),
            collected(all.take(i as int), out@),
        decreases rest.len(),
    {
        assert(all.take(i + 1).drop_last() =~= all.take(i as int));
        assert(all.take(i + 1).last() == all[i as int]);
        let item = rest.remove(0);
        assert(rest@ =~= all.skip(i + 1));
        match from_api(item) {
            Some(x) => {
                let ghost before = out@;
                out.push(x);
                assert(out@.drop_last() =~= before);
            },
            None => {},
        }
        i += 1;
    }
    assert(all.take(all.len() as int) =~= all);
    if out.len() < MIN_LOADOUT {
        proof {
            assert forall|list: Seq<RemoteStratagem>| collected(items@, list) implies list.len() < MIN_LOADOUT by {
                lemma_collected_unique(items@, list, out@);
            }
        }
        None
    } else {
        Some(out)
    }
}


/// The entries that pass the validation, in order.
pub open spec fn valid_entries(list: Seq<RemoteStratagem>) -> Seq<RemoteStratagem>
    decreases list.len(),
{
    if list.len() == 0 {
        Seq::empty()
    } else if spec_is_valid(list.last()) {
        valid_entries(list.drop_last()).push(list.last())
    } else {
        valid_entries(list.drop_last())
    }
}

/// The stratagems of the cache that can still be used: the valid ones, or
/// none when fewer than [`MIN_LOADOUT`] remain (a file that was tampered with
/// or cut short). An empty list leaves the app with the bundled JSON only.
pub fn cached_list(stratagems: Vec<RemoteStratagem>) -> (r: Vec<RemoteStratagem>)
    ensures
        valid_entries(stratagems@).len() >= MIN_LOADOUT ==> r@ == valid_entries(stratagems@),
        valid_entries(stratagems@).len() < MIN_LOADOUT ==> r@.len() == 0,
{
    let ghost all = stratagems@;
    let n: usize = stratagems.len();
    let mut rest = stratagems;
    let mut out: Vec<RemoteStratagem> = Vec::new();
    let mut i: usize = 0;
    assert(all.take(0) =~= Seq::<RemoteStratagem>::empty());
    assert(all.skip(0) =~= all);
    while rest.len() > 0
        invariant
            i <= all.len(),
            all.len() == n,
            rest@ == all.skip(i as int),
            out@ == valid_entries(all.take(i as int)),
        decreases rest.len(),
    {
        assert(all.take(i + 1).drop_last() =~= all.take(i as int));
        assert(all.take(i + 1).last() == all[i as int]);
        let item = rest.remove(0);
        assert(rest@ =~= all.skip(i + 1));
        if item.is_valid() {
            out.push(item);
        }
        i += 1;
    }
    assert(all.take(all.len() as int) =~= all);
    if out.len() < MIN_LOADOUT {
        Vec::new()
    } else {
        out
    }
}


/// `slug` is the slug of some bundled stratagem.
pub open spec fn bundled_slug(bundled: Seq<Stratagem>, slug: Seq<char>) -> bool {
    exists|j: int| 0 <= j < bundled.len() && (#[trigger] bundled[j]).slug@ == slug
}

/// Positions of the API's stratagems that the bundled JSON does not have, in order.
pub open spec fn new_positions(list: Seq<RemoteStratagem>, bundled: Seq<Stratagem>, n: int) -> Seq<usize>
    decreases n,
{
    if n <= 0 {
        Seq::empty()
    } else {
        let rest = new_positions(list, bundled, n - 1);
        if bundled_slug(bundled, list[n - 1].slug@) { rest } else { rest.push((n - 1) as usize) }
    }
}

/// The stratagems of the API that the bundled JSON does not have (by slug):
/// the ones whose icons must be on disk.
pub fn not_bundled(list: &[RemoteStratagem], bundled: &[Stratagem]) -> (r: Vec<usize>)
    ensures
        r@ == new_positions(list@, bundled@, list@.len() as int),
{
    let mut r: Vec<usize> = Vec::new();
    let mut i: usize = 0;
    while i < list.len()
        invariant
            i <= list@.len(),
            r@ == new_positions(list@, bundled@, i as int),
        decreases list.len() - i,
    {
        let mut found = false;
        let mut j: usize = 0;
        while j < bundled.len() && !found
            invariant
                j <= bundled@.len(),
                i < list@.len(),
                found ==> bundled_slug(bundled@, list@[i as int].slug@),
                !found ==> forall|k: int| 0 <= k < j ==> (#[trigger] bundled@[k]).slug@ != list@[i as int].slug@,
            decreases bundled.len() - j + if found { 0int } else { 1int },
        {
            if text::str_eq(bundled[j].slug.as_str(), list[i].slug.as_str()) {
                found = true;
            } else {
                j += 1;
            }
        }
        if !found {
            r.push(i);
        }
        i += 1;
    }
    r
}

/// Positions of the files on disk that no kept name matches: the icons
/// nothing new uses any more (those that came into the bundled JSON with a
/// release, and those of an older version of the art).
pub open spec fn stale_positions(files: Seq<String>, keep: Seq<String>, n: int) -> Seq<usize>
    decreases n,
{
    if n <= 0 {
        Seq::empty()
    } else {
        let rest = stale_positions(files, keep, n - 1);
        if text::views(keep).contains(files[n - 1]@) { rest } else { rest.push((n - 1) as usize) }
    }
}

/// The icon files to delete.
pub fn stale_icons(files: &[String], keep: &[String]) -> (r: Vec<usize>)
    ensures
        r@ == stale_positions(files@, keep@, files@.len() as int),
{
    let mut r: Vec<usize> = Vec::new();
    let mut i: usize = 0;
    while i < files.len()
        invariant
            i <= files@.len(),
            r@ == stale_positions(files@, keep@, i as int),
        decreases files.len() - i,
    {
        let mut found = false;
        let mut j: usize = 0;
        while j < keep.len() && !found
            invariant
                j <= keep@.len(),
                i < files@.len(),
                found ==> text::views(keep@).contains(files@[i as int]@),
                !found ==> forall|k: int| 0 <= k < j ==> (#[trigger] keep@[k])@ != files@[i as int]@,
            decreases keep.len() - j + if found { 0int } else { 1int },
        {
            if text::str_eq(keep[j].as_str(), files[i].as_str()) {
                assert(text::views(keep@)[j as int] == files@[i as int]@);
                found = true;
            } else {
                j += 1;
            }
        }
        if !found {
            assert forall|k: int| 0 <= k < keep@.len() implies text::views(keep@)[k] != files@[i as int]@ by {
                assert(text::views(keep@)[k] == keep@[k]@);
            }
        }
        i += 1;
        if !found {
            r.push(i - 1);
        }
    }
    r
}

// --- The session's turn ---

/// The session flag after a call (`synced`), and whether that call starts the
/// sync: never with the game focused, which leaves the turn for a later call.
pub open spec fn spec_auto_sync(focused: bool, synced: bool) -> (bool, bool) {
    (!focused && !synced, synced || !focused)
}

/// One sync per session, and never with the game in front (`auto_sync`):
/// called after the first paint and on the first loss of focus. A call with
/// the game focused does not use up the turn.
pub fn auto_sync(focused: bool, synced: &mut bool) -> (start: bool)
    ensures
        (start, *final(synced)) == spec_auto_sync(focused, *old(synced)),
{
    if focused {
        return false;
    }
    let was = *synced;
    *synced = true;
    !was
}

/// How many of a session's calls start a sync, from a session that has not
/// synced yet; each call is made with the focus given.
pub open spec fn syncs_started(focuses: Seq<bool>) -> (nat, bool)
    decreases focuses.len(),
{
    if focuses.len() == 0 {
        (0, false)
    } else {
        let (n, synced) = syncs_started(focuses.drop_last());
        let (start, after) = spec_auto_sync(focuses.last(), synced);
        (if start { n + 1 } else { n }, after)
    }
}

/// Whatever the focus at each call, a session starts at most one sync, and
/// once one started the flag stays set.
pub proof fn law_one_sync_per_session(focuses: Seq<bool>)
    ensures
        syncs_started(focuses).0 <= 1,
        syncs_started(focuses).0 == 1 ==> syncs_started(focuses).1,
        syncs_started(focuses).1 ==> syncs_started(focuses).0 == 1,
    decreases focuses.len(),
{
    if focuses.len() > 0 {
        law_one_sync_per_session(focuses.drop_last());
    }
}

} // verus!
