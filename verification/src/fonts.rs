//! The fonts to choose from, and which one is used.

use vstd::prelude::*;

use crate::chars::{decimal, decimal_text};
use crate::ports::{
    text_le, text_le_antisymmetric, text_le_total, text_le_transitive, text_not_after, upper_char,
};
use crate::serial_worker::texts;
use crate::settings::DEFAULT_FONT_WEIGHT;

verus! {

/// What is known of a font face. Faces are told apart by their places in a list.
#[derive(Debug)]
pub struct FaceInfo {
    pub family: Option<String>,
    pub upright: bool,
    pub monospaced: bool,
    pub weight: u16,
}

/// A weight to choose, and what it is called.
#[derive(Debug, PartialEq, Eq)]
pub struct WeightOption {
    pub value: u16,
    pub label: String,
}

#[derive(Debug)]
pub struct AppliedFonts {
    pub ui_family: String,
    pub data_family: String,
    pub ui_weight: u16,
    pub data_weight: u16,
    pub warnings: Vec<String>,
}

/// Two names are the same but for the case of ASCII letters.
pub open spec fn same_ignoring_case(a: Seq<char>, b: Seq<char>) -> bool {
    a.len() == b.len() && forall|i: int|
        0 <= i < a.len() ==> upper_char(#[trigger] a[i]) == upper_char(b[i])
}

/// The first name in a list that is the same but for case.
pub open spec fn find_name(names: Seq<Seq<char>>, wanted: Seq<char>) -> Option<Seq<char>>
    decreases names.len(),
{
    if names.len() == 0 {
        None
    } else if same_ignoring_case(names[0], wanted) {
        Some(names[0])
    } else {
        find_name(names.skip(1), wanted)
    }
}

/// The first of several names that is in a list.
pub open spec fn find_any(names: Seq<Seq<char>>, wanted: Seq<Seq<char>>) -> Option<Seq<char>>
    decreases wanted.len(),
{
    if wanted.len() == 0 {
        None
    } else {
        match find_name(names, wanted[0]) {
            Some(name) => Some(name),
            None => find_any(names, wanted.skip(1)),
        }
    }
}

/// The family to use: the one that was asked for, else the first usual one that is there, else
/// the first of all, else none.
pub open spec fn resolved_family(
    names: Seq<Seq<char>>,
    requested: Seq<char>,
    usual: Seq<Seq<char>>,
) -> Seq<char> {
    match find_name(names, requested) {
        Some(name) => name,
        None => match find_any(names, usual) {
            Some(name) => name,
            None => if names.len() > 0 {
                names[0]
            } else {
                Seq::empty()
            },
        },
    }
}

fn upper_of(c: char) -> (upper: char)
    ensures
        upper == upper_char(c),
{
    if 'a' <= c && c <= 'z' {
        (c as u8 - 32) as char
    } else {
        c
    }
}

fn equal_ignoring_case(a: &str, b: &str) -> (same: bool)
    ensures
        same == same_ignoring_case(a@, b@),
{
    let left = crate::chars::chars_of(a);
    let right = crate::chars::chars_of(b);
    if left.len() != right.len() {
        return false;
    }
    let mut i: usize = 0;
    while i < left.len()
        invariant
            i <= left.len() == right.len(),
            left@ == a@,
            right@ == b@,
            forall|k: int| 0 <= k < i ==> upper_char(#[trigger] a@[k]) == upper_char(b@[k]),
        decreases left.len() - i,
    {
        if upper_of(left[i]) != upper_of(right[i]) {
            assert(upper_char(a@[i as int]) != upper_char(b@[i as int]));
            return false;
        }
        i += 1;
    }
    true
}

pub fn find_case_insensitive(candidates: &Vec<String>, requested: &str) -> (found: Option<String>)
    ensures
        match find_name(texts(candidates@), requested@) {
            Some(name) => found matches Some(found) && found@ == name,
            None => found is None,
        },
{
    let ghost names = texts(candidates@);
    let mut i: usize = 0;
    assert(names.skip(0) =~= names);
    while i < candidates.len()
        invariant
            i <= candidates.len(),
            names == texts(candidates@),
            find_name(names, requested@) == find_name(names.skip(i as int), requested@),
        decreases candidates.len() - i,
    {
        assert(names.skip(i as int)[0] == candidates@[i as int]@);
        assert(names.skip(i as int).skip(1) =~= names.skip(i + 1));
        if equal_ignoring_case(candidates[i].as_str(), requested) {
            return Some(candidates[i].clone());
        }
        i += 1;
    }
    None
}

fn resolve_family(candidates: &Vec<String>, requested: &str, usual: &Vec<String>) -> (family: String)
    ensures
        family@ == resolved_family(texts(candidates@), requested@, texts(usual@)),
{
    if let Some(name) = find_case_insensitive(candidates, requested) {
        return name;
    }
    let ghost names = texts(candidates@);
    let ghost wanted = texts(usual@);
    let mut i: usize = 0;
    assert(wanted.skip(0) =~= wanted);
    while i < usual.len()
        invariant
            i <= usual.len(),
            names == texts(candidates@),
            wanted == texts(usual@),
            find_name(names, requested@) is None,
            find_any(names, wanted) == find_any(names, wanted.skip(i as int)),
        decreases usual.len() - i,
    {
        assert(wanted.skip(i as int)[0] == usual@[i as int]@);
        assert(wanted.skip(i as int).skip(1) =~= wanted.skip(i + 1));
        if let Some(name) = find_case_insensitive(candidates, usual[i].as_str()) {
            return name;
        }
        i += 1;
    }
    assert(names.len() == candidates@.len());
    if candidates.len() > 0 {
        candidates[0].clone()
    } else {
        String::new()
    }
}

pub open spec fn usual_ui_families() -> Seq<Seq<char>> {
    seq!["Microsoft YaHei UI"@, "Microsoft YaHei"@, "Segoe UI"@]
}

pub open spec fn usual_data_families() -> Seq<Seq<char>> {
    seq!["Cascadia Mono"@, "Consolas"@]
}

/// A face has this family.
pub open spec fn is_of(face: FaceInfo, name: Seq<char>) -> bool {
    face.family matches Some(family) && family@ == name
}

/// Some face has this family.
pub open spec fn has_family(faces: Seq<FaceInfo>, name: Seq<char>) -> bool {
    exists|i: int| 0 <= i < faces.len() && is_of(#[trigger] faces[i], name)
}

pub open spec fn has_mono_family(faces: Seq<FaceInfo>, name: Seq<char>) -> bool {
    exists|i: int| 0 <= i < faces.len() && is_of(#[trigger] faces[i], name) && faces[i].monospaced
}

/// The face that is used for a family: the first upright one, or the first where none is upright.
pub open spec fn is_chosen_face(faces: Seq<FaceInfo>, name: Seq<char>, face: int) -> bool {
    &&& 0 <= face < faces.len()
    &&& is_of(faces[face], name)
    &&& if faces[face].upright {
        forall|i: int| 0 <= i < face && is_of(#[trigger] faces[i], name) ==> !faces[i].upright
    } else {
        &&& forall|i: int|
            0 <= i < faces.len() && is_of(#[trigger] faces[i], name) ==> !faces[i].upright
        &&& forall|i: int| 0 <= i < face ==> !is_of(#[trigger] faces[i], name)
    }
}

/// Names in alphabetical order, none of them twice.
pub open spec fn in_name_order(names: Seq<Seq<char>>) -> bool {
    forall|i: int, j: int|
        0 <= i < j < names.len() ==> text_le(#[trigger] names[i], #[trigger] names[j]) && names[i]
            != names[j]
}

/// The families of the fonts that are installed.
#[derive(Debug)]
pub struct FontCatalog {
    ui_families: Vec<String>,
    /// The face of each family.
    faces: Vec<usize>,
    mono_families: Vec<String>,
    styles: Vec<FaceStyle>,
}

/// A face of some family, by its place in the list of faces.
#[derive(Debug)]
struct FaceStyle {
    family: String,
    weight: u16,
    upright: bool,
    face: usize,
}

/// What is known of a face of some family.
#[verifier::ext_equal]
pub struct StyleView {
    pub family: Seq<char>,
    pub weight: u16,
    pub upright: bool,
    pub face: usize,
}

impl View for FaceStyle {
    type V = StyleView;

    closed spec fn view(&self) -> StyleView {
        StyleView {
            family: self.family@,
            weight: self.weight,
            upright: self.upright,
            face: self.face,
        }
    }
}

/// The faces of a list that have a family, in order.
pub open spec fn styles_of(faces: Seq<FaceInfo>) -> Seq<StyleView>
    decreases faces.len(),
{
    if faces.len() == 0 {
        Seq::empty()
    } else {
        let before = styles_of(faces.drop_last());
        let last = faces.last();
        match last.family {
            Some(family) => before.push(
                StyleView {
                    family: family@,
                    weight: last.weight,
                    upright: last.upright,
                    face: (faces.len() - 1) as usize,
                },
            ),
            None => before,
        }
    }
}

/// A family has an upright face.
pub open spec fn has_upright(styles: Seq<StyleView>, family: Seq<char>) -> bool {
    exists|i: int|
        0 <= i < styles.len() && (#[trigger] styles[i]).family == family && styles[i].upright
}

/// A face can be used for a family: an upright one, or any where none is upright.
pub open spec fn is_usable(styles: Seq<StyleView>, family: Seq<char>, at: int) -> bool {
    &&& 0 <= at < styles.len()
    &&& styles[at].family == family
    &&& styles[at].upright || !has_upright(styles, family)
}

/// A family comes in a weight.
pub open spec fn comes_in(styles: Seq<StyleView>, family: Seq<char>, weight: u16) -> bool {
    exists|at: int| #[trigger] is_usable(styles, family, at) && styles[at].weight == weight
}

/// The weight that is used for a family: the one that was asked for; where the family does not
/// come in it, the usual one; where the family does not come in that, the weight of its first
/// face.
pub open spec fn is_resolved_weight(
    styles: Seq<StyleView>,
    family: Seq<char>,
    requested: u16,
    weight: u16,
) -> bool {
    if comes_in(styles, family, requested) {
        weight == requested
    } else if comes_in(styles, family, DEFAULT_FONT_WEIGHT) {
        weight == DEFAULT_FONT_WEIGHT
    } else if exists|at: int| #[trigger] is_usable(styles, family, at) {
        exists|at: int| #[trigger]
            is_usable(styles, family, at) && styles[at].weight == weight && forall|i: int|
                0 <= i < at ==> !#[trigger] is_usable(styles, family, i)
    } else {
        weight == DEFAULT_FONT_WEIGHT
    }
}

/// What a weight is called.
pub open spec fn weight_name(weight: u16) -> Seq<char> {
    let number = decimal_text(weight as nat);
    match weight {
        100 => "极细 "@ + number,
        200 => "特细 "@ + number,
        300 => "细体 "@ + number,
        400 => "常规 "@ + number,
        500 => "中等 "@ + number,
        600 => "半粗 "@ + number,
        700 => "粗体 "@ + number,
        800 => "特粗 "@ + number,
        900 => "黑体 "@ + number,
        _ => number,
    }
}

fn weight_text(weight: u16) -> (text: String)
    ensures
        text@ == weight_name(weight),
{
    let number = decimal(weight as u64);
    let mut text = match weight {
        100 => "极细 ".to_owned(),
        200 => "特细 ".to_owned(),
        300 => "细体 ".to_owned(),
        400 => "常规 ".to_owned(),
        500 => "中等 ".to_owned(),
        600 => "半粗 ".to_owned(),
        700 => "粗体 ".to_owned(),
        800 => "特粗 ".to_owned(),
        900 => "黑体 ".to_owned(),
        _ => return number,
    };
    text.append(number.as_str());
    text
}

pub open spec fn option_values(options: Seq<WeightOption>) -> Seq<u16> {
    Seq::new(options.len(), |i: int| options[i].value)
}

proof fn names_extend(names: Seq<Seq<char>>, at: int, name: Seq<char>)
    requires
        in_name_order(names),
        0 <= at <= names.len(),
        forall|i: int| 0 <= i < at ==> text_le(#[trigger] names[i], name) && names[i] != name,
        forall|i: int| at <= i < names.len() ==> text_le(name, #[trigger] names[i]) && names[i]
            != name,
    ensures
        in_name_order(names.insert(at, name)),
        forall|other: Seq<char>|
            #[trigger] names.insert(at, name).contains(other) == (names.contains(other) || other
                == name),
{
    let all = names.insert(at, name);
    assert forall|i: int, j: int| 0 <= i < j < all.len() implies text_le(
        #[trigger] all[i],
        #[trigger] all[j],
    ) && all[i] != all[j] by {
        let a = if i < at {
            i
        } else {
            i - 1
        };
        let b = if j < at {
            j
        } else {
            j - 1
        };
        if i == at {
            assert(all[j] == names[b]);
        } else if j == at {
            assert(all[i] == names[a]);
        } else {
            assert(all[i] == names[a] && all[j] == names[b]);
            assert(text_le(names[a], names[b]));
        }
    }
    assert forall|other: Seq<char>| #[trigger] all.contains(other) == (names.contains(other)
        || other == name) by {
        if all.contains(other) {
            let i = choose|i: int| 0 <= i < all.len() && all[i] == other;
            if i < at {
                assert(names[i] == other);
            } else if i > at {
                assert(names[i - 1] == other);
            }
        }
        if names.contains(other) {
            let i = choose|i: int| 0 <= i < names.len() && names[i] == other;
            if i < at {
                assert(all[i] == other);
            } else {
                assert(all[i + 1] == other);
            }
        }
        if other == name {
            assert(all[at] == other);
        }
    }
}

/// Where a name is, or where it has to be put.
fn place_for(names: &Vec<String>, name: &String) -> (place: (usize, bool))
    requires
        in_name_order(texts(names@)),
    ensures
        place.0 <= names@.len(),
        place.1 == texts(names@).contains(name@),
        place.1 ==> place.0 < names@.len() && names@[place.0 as int]@ == name@,
        !place.1 ==> forall|i: int|
            0 <= i < place.0 ==> text_le(#[trigger] texts(names@)[i], name@) && texts(names@)[i]
                != name@,
        !place.1 ==> forall|i: int|
            place.0 <= i < names@.len() ==> text_le(name@, #[trigger] texts(names@)[i]) && texts(
                names@,
            )[i] != name@,
{
    let ghost all = texts(names@);
    let mut at: usize = 0;
    while at < names.len() && names[at] != *name && text_not_after(
        names[at].as_str(),
        name.as_str(),
    )
        invariant
            at <= names.len(),
            all == texts(names@),
            forall|i: int| 0 <= i < at ==> text_le(#[trigger] all[i], name@) && all[i] != name@,
        decreases names.len() - at,
    {
        at += 1;
    }
    if at < names.len() && names[at] == *name {
        assert(all[at as int] == name@);
        return (at, true);
    }
    proof {
        assert forall|i: int| at <= i < names@.len() implies text_le(name@, #[trigger] all[i])
            && all[i] != name@ by {
            text_le_total(name@, all[at as int]);
            if i > at {
                assert(text_le(all[at as int], all[i]));
                text_le_transitive(name@, all[at as int], all[i]);
                if all[i] == name@ {
                    text_le_antisymmetric(name@, all[at as int]);
                }
            }
        }
    }
    (at, false)
}

/// Puts a name in its place, unless it is there already.
fn insert_name(names: &mut Vec<String>, name: &String)
    requires
        in_name_order(texts(old(names)@)),
    ensures
        in_name_order(texts(final(names)@)),
        forall|other: Seq<char>|
            #[trigger] texts(final(names)@).contains(other) == (texts(old(names)@).contains(other)
                || other == name@),
{
    let (at, found) = place_for(names, name);
    if !found {
        proof {
            names_extend(texts(names@), at as int, name@);
        }
        let ghost before = names@;
        names.insert(at, name.clone());
        assert(texts(names@) =~= texts(before).insert(at as int, name@));
    }
}

proof fn chosen_face_stays(faces: Seq<FaceInfo>, k: int, name: Seq<char>, face: int)
    requires
        0 <= k < faces.len(),
        is_chosen_face(faces.take(k), name, face),
    ensures
        is_of(faces[k], name) && faces[k].upright && !faces[face].upright ==> is_chosen_face(
            faces.take(k + 1),
            name,
            k,
        ),
        !(is_of(faces[k], name) && faces[k].upright && !faces[face].upright) ==> is_chosen_face(
            faces.take(k + 1),
            name,
            face,
        ),
{
    let before = faces.take(k);
    let after = faces.take(k + 1);
    assert forall|i: int| 0 <= i < k implies #[trigger] after[i] == before[i] by {}
    if is_of(faces[k], name) && faces[k].upright && !faces[face].upright {
        assert forall|i: int| 0 <= i < k && is_of(#[trigger] after[i], name) implies !after[i].upright by {
            assert(is_of(before[i], name));
        }
    } else if faces[face].upright {
        assert forall|i: int| 0 <= i < face && is_of(#[trigger] after[i], name) implies !after[i].upright by {
            assert(is_of(before[i], name));
        }
    } else {
        assert forall|i: int| 0 <= i < after.len() && is_of(#[trigger] after[i], name) implies !after[i].upright by {
            if i < k {
                assert(is_of(before[i], name));
            }
        }
        assert forall|i: int| 0 <= i < face implies !is_of(#[trigger] after[i], name) by {
            assert(!is_of(before[i], name));
        }
    }
}

proof fn first_face_is_chosen(faces: Seq<FaceInfo>, k: int, name: Seq<char>)
    requires
        0 <= k < faces.len(),
        is_of(faces[k], name),
        !has_family(faces.take(k), name),
    ensures
        is_chosen_face(faces.take(k + 1), name, k),
{
    let before = faces.take(k);
    let after = faces.take(k + 1);
    assert forall|i: int| 0 <= i < k implies !is_of(#[trigger] after[i], name) by {
        assert(after[i] == before[i]);
        assert(!is_of(before[i], name));
    }
}

proof fn families_extend(faces: Seq<FaceInfo>, k: int)
    requires
        0 <= k < faces.len(),
    ensures
        forall|name: Seq<char>|
            #[trigger] has_family(faces.take(k + 1), name) == (has_family(faces.take(k), name)
                || is_of(faces[k], name)),
        forall|name: Seq<char>|
            #[trigger] has_mono_family(faces.take(k + 1), name) == (has_mono_family(
                faces.take(k),
                name,
            ) || is_of(faces[k], name) && faces[k].monospaced),
{
    let before = faces.take(k);
    let after = faces.take(k + 1);
    assert forall|i: int| 0 <= i < k implies #[trigger] after[i] == before[i] by {}
    assert(after[k] == faces[k]);
    assert forall|name: Seq<char>| #[trigger] has_family(after, name) == (has_family(before, name)
        || is_of(faces[k], name)) by {
        if has_family(before, name) {
            let i = choose|i: int| 0 <= i < before.len() && is_of(#[trigger] before[i], name);
            assert(is_of(after[i], name));
        }
        if has_family(after, name) {
            let i = choose|i: int| 0 <= i < after.len() && is_of(#[trigger] after[i], name);
            if i < k {
                assert(is_of(before[i], name));
            }
        }
    }
    assert forall|name: Seq<char>| #[trigger] has_mono_family(after, name) == (has_mono_family(
        before,
        name,
    ) || is_of(faces[k], name) && faces[k].monospaced) by {
        if has_mono_family(before, name) {
            let i = choose|i: int|
                0 <= i < before.len() && is_of(#[trigger] before[i], name) && before[i].monospaced;
            assert(is_of(after[i], name) && after[i].monospaced);
        }
        if has_mono_family(after, name) {
            let i = choose|i: int|
                0 <= i < after.len() && is_of(#[trigger] after[i], name) && after[i].monospaced;
            if i < k {
                assert(is_of(before[i], name) && before[i].monospaced);
            }
        }
    }
}

spec fn style_views(styles: Seq<FaceStyle>) -> Seq<StyleView> {
    Seq::new(styles.len(), |i: int| styles[i]@)
}

/// A family comes in a weight, by one of the first faces.
spec fn comes_in_before(
    styles: Seq<StyleView>,
    family: Seq<char>,
    weight: u16,
    end: int,
) -> bool {
    exists|at: int|
        at < end && #[trigger] is_usable(styles, family, at) && styles[at].weight == weight
}

/// Puts a weight in its place, unless it is there already.
fn insert_weight(options: &mut Vec<WeightOption>, weight: u16)
    requires
        forall|i: int, j: int|
            0 <= i < j < old(options)@.len() ==> (#[trigger] old(options)@[i]).value < (
            #[trigger] old(options)@[j]).value,
        forall|i: int|
            0 <= i < old(options)@.len() ==> (#[trigger] old(options)@[i]).label@ == weight_name(
                old(options)@[i].value,
            ),
    ensures
        forall|i: int, j: int|
            0 <= i < j < final(options)@.len() ==> (#[trigger] final(options)@[i]).value < (
            #[trigger] final(options)@[j]).value,
        forall|i: int|
            0 <= i < final(options)@.len() ==> (#[trigger] final(options)@[i]).label@
                == weight_name(final(options)@[i].value),
        forall|other: u16| #[trigger]
            option_values(final(options)@).contains(other) == (option_values(
                old(options)@,
            ).contains(other) || other == weight),
{
    let ghost before = options@;
    let ghost values = option_values(before);
    let mut at: usize = 0;
    while at < options.len() && options[at].value < weight
        invariant
            at <= options@.len(),
            options@ == before,
            forall|i: int| 0 <= i < at ==> (#[trigger] before[i]).value < weight,
        decreases options@.len() - at,
    {
        at += 1;
    }
    if at < options.len() && options[at].value == weight {
        assert(values[at as int] == weight);
        return ;
    }
    options.insert(at, WeightOption { value: weight, label: weight_text(weight) });
    proof {
        let after = option_values(options@);
        assert(after =~= values.insert(at as int, weight));
        assert forall|other: u16| #[trigger] after.contains(other) == (values.contains(other)
            || other == weight) by {
            if after.contains(other) {
                let i = choose|i: int| 0 <= i < after.len() && after[i] == other;
                if i < at {
                    assert(values[i] == other);
                } else if i > at {
                    assert(values[i - 1] == other);
                }
            }
            if values.contains(other) {
                let i = choose|i: int| 0 <= i < values.len() && values[i] == other;
                if i < at {
                    assert(after[i] == other);
                } else {
                    assert(after[i + 1] == other);
                }
            }
            assert(after[at as int] == weight);
        }
        assert forall|i: int, j: int| 0 <= i < j < options@.len() implies (
        #[trigger] options@[i]).value < (#[trigger] options@[j]).value by {
            let a = if i < at {
                i
            } else {
                i - 1
            };
            let b = if j < at {
                j
            } else {
                j - 1
            };
            if i == at {
                assert(options@[j] == before[b]);
                assert(before[at as int].value > weight);
            } else if j == at {
                assert(options@[i] == before[a]);
            } else {
                assert(options@[i] == before[a] && options@[j] == before[b]);
            }
        }
        assert forall|i: int| 0 <= i < options@.len() implies (#[trigger] options@[i]).label@
            == weight_name(options@[i].value) by {
            if i < at {
                assert(options@[i] == before[i]);
            } else if i > at {
                assert(options@[i] == before[i - 1]);
            }
        }
    }
}

impl FontCatalog {
    pub closed spec fn ui_names(self) -> Seq<Seq<char>> {
        texts(self.ui_families@)
    }

    pub closed spec fn mono_names(self) -> Seq<Seq<char>> {
        texts(self.mono_families@)
    }

    /// The face of the family at a place.
    pub closed spec fn chosen(self) -> Seq<usize> {
        self.faces@
    }

    /// The faces of all families.
    pub closed spec fn styles(self) -> Seq<StyleView> {
        style_views(self.styles@)
    }

    /// Each family has a face.
    #[verifier::type_invariant]
    spec fn parts_agree(self) -> bool {
        self.faces@.len() == self.ui_families@.len()
    }

    /// The families of these faces.
    pub fn from_faces(faces: &Vec<FaceInfo>) -> (catalog: Self)
        ensures
            in_name_order(catalog.ui_names()),
            in_name_order(catalog.mono_names()),
            forall|name: Seq<char>|
                #[trigger] catalog.ui_names().contains(name) == has_family(faces@, name),
            forall|name: Seq<char>|
                #[trigger] catalog.mono_names().contains(name) == has_mono_family(faces@, name),
            catalog.chosen().len() == catalog.ui_names().len(),
            forall|i: int|
                0 <= i < catalog.chosen().len() ==> is_chosen_face(
                    faces@,
                    catalog.ui_names()[i],
                    #[trigger] catalog.chosen()[i] as int,
                ),
            catalog.styles() == styles_of(faces@),
    {
        let mut ui_families: Vec<String> = Vec::new();
        let mut chosen: Vec<usize> = Vec::new();
        let mut mono_families: Vec<String> = Vec::new();
        let mut k: usize = 0;
        while k < faces.len()
            invariant
                k <= faces.len(),
                in_name_order(texts(ui_families@)),
                in_name_order(texts(mono_families@)),
                chosen@.len() == ui_families@.len(),
                forall|name: Seq<char>|
                    #[trigger] texts(ui_families@).contains(name) == has_family(
                        faces@.take(k as int),
                        name,
                    ),
                forall|name: Seq<char>|
                    #[trigger] texts(mono_families@).contains(name) == has_mono_family(
                        faces@.take(k as int),
                        name,
                    ),
                forall|i: int|
                    0 <= i < chosen@.len() ==> is_chosen_face(
                        faces@.take(k as int),
                        ui_families@[i]@,
                        #[trigger] chosen@[i] as int,
                    ),
            decreases faces.len() - k,
        {
            proof {
                families_extend(faces@, k as int);
            }
            if let Some(family) = &faces[k].family {
                Self::add_face(&mut ui_families, &mut chosen, faces, k, family);
                if faces[k].monospaced {
                    insert_name(&mut mono_families, family);
                }
            } else {
                proof {
                    assert forall|i: int| 0 <= i < chosen@.len() implies is_chosen_face(
                        faces@.take(k + 1),
                        ui_families@[i]@,
                        #[trigger] chosen@[i] as int,
                    ) by {
                        chosen_face_stays(faces@, k as int, ui_families@[i]@, chosen@[i] as int);
                    }
                }
            }
            k += 1;
        }
        assert(faces@.take(k as int) == faces@);
        let styles = Self::styles_from(faces);
        FontCatalog { ui_families, faces: chosen, mono_families, styles }
    }

    fn styles_from(faces: &Vec<FaceInfo>) -> (styles: Vec<FaceStyle>)
        ensures
            style_views(styles@) == styles_of(faces@),
    {
        let mut styles: Vec<FaceStyle> = Vec::new();
        assert(style_views(styles@) =~= styles_of(faces@.take(0)));
        let mut k: usize = 0;
        while k < faces.len()
            invariant
                k <= faces@.len(),
                style_views(styles@) == styles_of(faces@.take(k as int)),
            decreases faces@.len() - k,
        {
            assert(faces@.take(k + 1).drop_last() == faces@.take(k as int));
            let ghost before = style_views(styles@);
            if let Some(family) = &faces[k].family {
                let style = FaceStyle {
                    family: family.clone(),
                    weight: faces[k].weight,
                    upright: faces[k].upright,
                    face: k,
                };
                let ghost view = style@;
                styles.push(style);
                assert(style_views(styles@) =~= before.push(view));
            }
            k += 1;
        }
        assert(faces@.take(k as int) == faces@);
        styles
    }

    /// Takes in one face of a family.
    fn add_face(
        names: &mut Vec<String>,
        chosen: &mut Vec<usize>,
        faces: &Vec<FaceInfo>,
        k: usize,
        family: &String,
    )
        requires
            k < faces@.len(),
            is_of(faces@[k as int], family@),
            in_name_order(texts(old(names)@)),
            old(chosen)@.len() == old(names)@.len(),
            forall|name: Seq<char>|
                #[trigger] texts(old(names)@).contains(name) == has_family(
                    faces@.take(k as int),
                    name,
                ),
            forall|i: int|
                0 <= i < old(chosen)@.len() ==> is_chosen_face(
                    faces@.take(k as int),
                    old(names)@[i]@,
                    #[trigger] old(chosen)@[i] as int,
                ),
        ensures
            in_name_order(texts(final(names)@)),
            final(chosen)@.len() == final(names)@.len(),
            forall|name: Seq<char>|
                #[trigger] texts(final(names)@).contains(name) == has_family(
                    faces@.take(k + 1),
                    name,
                ),
            forall|i: int|
                0 <= i < final(chosen)@.len() ==> is_chosen_face(
                    faces@.take(k + 1),
                    final(names)@[i]@,
                    #[trigger] final(chosen)@[i] as int,
                ),
    {
        let ghost old_names = names@;
        let ghost old_chosen = chosen@;
        proof {
            families_extend(faces@, k as int);
        }
        let (at, found) = place_for(names, family);
        if found {
            assert(texts(old_names)[at as int] == family@);
            proof {
                assert forall|i: int| 0 <= i < old_chosen.len() && i != at implies is_chosen_face(
                    faces@.take(k + 1),
                    old_names[i]@,
                    #[trigger] old_chosen[i] as int,
                ) by {
                    chosen_face_stays(faces@, k as int, old_names[i]@, old_chosen[i] as int);
                    assert(texts(old_names)[i] != texts(old_names)[at as int]);
                }
                chosen_face_stays(faces@, k as int, family@, old_chosen[at as int] as int);
            }
            let current: usize = chosen[at];
            if faces[k].upright && !faces[current].upright {
                chosen.set(at, k);
            }
        } else {
            proof {
                names_extend(texts(old_names), at as int, family@);
                first_face_is_chosen(faces@, k as int, family@);
                assert forall|i: int| 0 <= i < old_chosen.len() implies is_chosen_face(
                    faces@.take(k + 1),
                    old_names[i]@,
                    #[trigger] old_chosen[i] as int,
                ) by {
                    chosen_face_stays(faces@, k as int, old_names[i]@, old_chosen[i] as int);
                    assert(texts(old_names)[i] != family@);
                }
            }
            names.insert(at, family.clone());
            chosen.insert(at, k);
            proof {
                assert(texts(names@) =~= texts(old_names).insert(at as int, family@));
                assert forall|i: int| 0 <= i < chosen@.len() implies is_chosen_face(
                    faces@.take(k + 1),
                    names@[i]@,
                    #[trigger] chosen@[i] as int,
                ) by {
                    if i < at {
                        assert(chosen@[i] == old_chosen[i]);
                    } else if i > at {
                        assert(chosen@[i] == old_chosen[i - 1]);
                    }
                }
            }
        }
    }

    /// The face that is used for a family.
    pub fn face_of(&self, family: &str) -> (face: Option<usize>)
        ensures
            match face {
                Some(face) => exists|i: int|
                    0 <= i < self.ui_names().len() && #[trigger] self.ui_names()[i] == family@
                        && self.chosen()[i] == face,
                None => !self.ui_names().contains(family@),
            },
    {
        proof {
            use_type_invariant(self);
        }
        let wanted = family.to_owned();
        let mut i: usize = 0;
        while i < self.ui_families.len()
            invariant
                i <= self.ui_families.len(),
                wanted@ == family@,
                self.faces@.len() == self.ui_families@.len(),
                forall|k: int| 0 <= k < i ==> #[trigger] self.ui_names()[k] != family@,
            decreases self.ui_families.len() - i,
        {
            if self.ui_families[i] == wanted {
                assert(self.ui_names()[i as int] == family@);
                return Some(self.faces[i]);
            }
            i += 1;
        }
        None
    }

    fn has_upright_face(&self, family: &String) -> (found: bool)
        ensures
            found == has_upright(self.styles(), family@),
    {
        let ghost views = self.styles();
        let mut i: usize = 0;
        while i < self.styles.len()
            invariant
                i <= self.styles@.len(),
                views == self.styles(),
                views.len() == self.styles@.len(),
                forall|k: int|
                    0 <= k < i && (#[trigger] views[k]).family == family@ ==> !views[k].upright,
            decreases self.styles@.len() - i,
        {
            assert(views[i as int] == self.styles@[i as int]@);
            if self.styles[i].upright && self.styles[i].family == *family {
                return true;
            }
            i += 1;
        }
        false
    }

    /// The first face that can be used for a family, of a weight where one is given.
    fn find_style(&self, family: &String, weight: Option<u16>) -> (found: Option<usize>)
        ensures
            match found {
                Some(at) => is_usable(self.styles(), family@, at as int) && (weight matches Some(
                    weight,
                ) ==> self.styles()[at as int].weight == weight) && forall|i: int|
                    0 <= i < at ==> !(#[trigger] is_usable(self.styles(), family@, i) && (
                    weight matches Some(weight) ==> self.styles()[i].weight == weight)),
                None => forall|i: int|
                    !(#[trigger] is_usable(self.styles(), family@, i) && (weight matches Some(
                        weight,
                    ) ==> self.styles()[i].weight == weight)),
            },
    {
        let upright = self.has_upright_face(family);
        let ghost views = self.styles();
        let mut i: usize = 0;
        while i < self.styles.len()
            invariant
                i <= self.styles@.len(),
                views == self.styles(),
                views.len() == self.styles@.len(),
                upright == has_upright(views, family@),
                forall|k: int|
                    0 <= k < i ==> !(#[trigger] is_usable(views, family@, k) && (weight matches Some(
                        weight,
                    ) ==> views[k].weight == weight)),
            decreases self.styles@.len() - i,
        {
            assert(views[i as int] == self.styles@[i as int]@);
            let style = &self.styles[i];
            let wanted = match weight {
                Some(weight) => style.weight == weight,
                None => true,
            };
            if wanted && (style.upright || !upright) && style.family == *family {
                return Some(i);
            }
            i += 1;
        }
        None
    }

    /// The weight that is used for a family when one is asked for.
    pub fn resolve_weight(&self, family: &str, requested: u16) -> (weight: u16)
        ensures
            is_resolved_weight(self.styles(), family@, requested, weight),
    {
        let family = family.to_owned();
        if self.find_style(&family, Some(requested)).is_some() {
            return requested;
        }
        if self.find_style(&family, Some(DEFAULT_FONT_WEIGHT)).is_some() {
            return DEFAULT_FONT_WEIGHT;
        }
        match self.find_style(&family, None) {
            Some(at) => {
                assert(self.styles()[at as int] == self.styles@[at as int]@);
                self.styles[at].weight
            },
            None => DEFAULT_FONT_WEIGHT,
        }
    }

    /// What the weight is called that is used for a family when one is asked for.
    pub fn weight_label(&self, family: &str, requested: u16) -> (label: String)
        ensures
            exists|weight: u16| #[trigger]
                is_resolved_weight(self.styles(), family@, requested, weight) && label@
                    == weight_name(weight),
    {
        let weight: u16 = self.resolve_weight(family, requested);
        weight_text(weight)
    }

    /// The first face of a family in a weight, if the family comes in it.
    pub fn face_in_weight(&self, family: &str, weight: u16) -> (face: Option<usize>)
        ensures
            match face {
                Some(face) => exists|at: int| #[trigger]
                    is_usable(self.styles(), family@, at) && self.styles()[at].weight == weight
                        && self.styles()[at].face == face && forall|i: int|
                        0 <= i < at && #[trigger] is_usable(self.styles(), family@, i)
                            ==> self.styles()[i].weight != weight,
                None => !comes_in(self.styles(), family@, weight),
            },
    {
        let family = family.to_owned();
        match self.find_style(&family, Some(weight)) {
            Some(at) => {
                assert(self.styles()[at as int] == self.styles@[at as int]@);
                Some(self.styles[at].face)
            },
            None => None,
        }
    }

    /// The weights that a family comes in, in ascending order.
    pub fn weight_options(&self, family: &str) -> (options: Vec<WeightOption>)
        ensures
            forall|i: int, j: int|
                0 <= i < j < options@.len() ==> (#[trigger] options@[i]).value < (
                #[trigger] options@[j]).value,
            forall|weight: u16| #[trigger]
                option_values(options@).contains(weight) == comes_in(
                    self.styles(),
                    family@,
                    weight,
                ),
            forall|i: int|
                0 <= i < options@.len() ==> (#[trigger] options@[i]).label@ == weight_name(
                    options@[i].value,
                ),
    {
        let wanted = family.to_owned();
        let upright = self.has_upright_face(&wanted);
        let ghost views = self.styles();
        let mut options: Vec<WeightOption> = Vec::new();
        assert(option_values(options@) =~= Seq::<u16>::empty());
        let mut i: usize = 0;
        while i < self.styles.len()
            invariant
                i <= self.styles@.len(),
                wanted@ == family@,
                views == self.styles(),
                views.len() == self.styles@.len(),
                upright == has_upright(views, family@),
                forall|a: int, b: int|
                    0 <= a < b < options@.len() ==> (#[trigger] options@[a]).value < (
                    #[trigger] options@[b]).value,
                forall|weight: u16| #[trigger]
                    option_values(options@).contains(weight) == comes_in_before(
                        views,
                        family@,
                        weight,
                        i as int,
                    ),
                forall|k: int|
                    0 <= k < options@.len() ==> (#[trigger] options@[k]).label@ == weight_name(
                        options@[k].value,
                    ),
            decreases self.styles@.len() - i,
        {
            let style = &self.styles[i];
            assert(views[i as int] == style@);
            let ghost before = options@;
            if (style.upright || !upright) && style.family == wanted {
                insert_weight(&mut options, style.weight);
                assert(is_usable(views, family@, i as int));
            }
            proof {
                assert forall|weight: u16| #[trigger]
                    option_values(options@).contains(weight) == comes_in_before(
                        views,
                        family@,
                        weight,
                        i + 1,
                    ) by {
                    let known = option_values(before).contains(weight);
                    if comes_in_before(views, family@, weight, i as int) {
                        let at = choose|at: int|
                            at < i && #[trigger] is_usable(views, family@, at) && views[at].weight
                                == weight;
                        assert(is_usable(views, family@, at));
                    }
                }
            }
            i += 1;
        }
        proof {
            assert forall|weight: u16| #[trigger]
                option_values(options@).contains(weight) == comes_in(views, family@, weight) by {
                let known = comes_in_before(views, family@, weight, i as int);
                if comes_in(views, family@, weight) {
                    let at = choose|at: int| #[trigger]
                        is_usable(views, family@, at) && views[at].weight == weight;
                    assert(at < i && is_usable(views, family@, at));
                }
            }
        }
        options
    }

    pub fn ui_families(&self) -> (families: &Vec<String>)
        ensures
            texts(families@) == self.ui_names(),
    {
        &self.ui_families
    }

    pub fn mono_families(&self) -> (families: &Vec<String>)
        ensures
            texts(families@) == self.mono_names(),
    {
        &self.mono_families
    }

    pub fn resolve_ui_family(&self, requested: &str) -> (family: String)
        ensures
            family@ == resolved_family(self.ui_names(), requested@, usual_ui_families()),
    {
        let usual = vec![
            "Microsoft YaHei UI".to_owned(),
            "Microsoft YaHei".to_owned(),
            "Segoe UI".to_owned(),
        ];
        assert(texts(usual@) =~= usual_ui_families());
        resolve_family(&self.ui_families, requested, &usual)
    }

    pub fn resolve_data_family(&self, requested: &str) -> (family: String)
        ensures
            family@ == resolved_family(self.mono_names(), requested@, usual_data_families()),
    {
        let usual = vec!["Cascadia Mono".to_owned(), "Consolas".to_owned()];
        assert(texts(usual@) =~= usual_data_families());
        resolve_family(&self.mono_families, requested, &usual)
    }
}

/// What is said of fonts that were tried: those that could not be loaded are replaced.
pub fn applied_fonts(
    ui_family: String,
    data_family: String,
    ui_weight: u16,
    data_weight: u16,
    ui_loaded: bool,
    data_loaded: bool,
) -> (applied: AppliedFonts)
    ensures
        applied.ui_family == ui_family,
        applied.data_family == data_family,
        applied.ui_weight == ui_weight,
        applied.data_weight == data_weight,
        texts(applied.warnings@) == (if ui_loaded {
            Seq::<Seq<char>>::empty()
        } else {
            seq!["无法载入界面字体 "@ + ui_family@ + "，已使用内置字体"@]
        }) + (if data_loaded {
            Seq::<Seq<char>>::empty()
        } else {
            seq!["无法载入数据字体 "@ + data_family@ + "，已使用内置等宽字体"@]
        }),
{
    let mut warnings: Vec<String> = Vec::new();
    if !ui_loaded {
        let mut warning = "无法载入界面字体 ".to_owned();
        warning.append(ui_family.as_str());
        warning.append("，已使用内置字体");
        warnings.push(warning);
    }
    if !data_loaded {
        let mut warning = "无法载入数据字体 ".to_owned();
        warning.append(data_family.as_str());
        warning.append("，已使用内置等宽字体");
        warnings.push(warning);
    }
    assert(texts(warnings@) =~= (if ui_loaded {
        Seq::<Seq<char>>::empty()
    } else {
        seq!["无法载入界面字体 "@ + ui_family@ + "，已使用内置字体"@]
    }) + (if data_loaded {
        Seq::<Seq<char>>::empty()
    } else {
        seq!["无法载入数据字体 "@ + data_family@ + "，已使用内置等宽字体"@]
    }));
    AppliedFonts { ui_family, data_family, ui_weight, data_weight, warnings }
}

/// A name is found as it stands in the list: the first one that is the same but for capitals.
pub proof fn names_are_found_whatever_their_capitals(names: Seq<Seq<char>>, wanted: Seq<char>)
    ensures
        match find_name(names, wanted) {
            Some(name) => exists|k: int|
                {
                    &&& 0 <= k < names.len()
                    &&& #[trigger] names[k] == name
                    &&& same_ignoring_case(name, wanted)
                    &&& forall|i: int|
                        0 <= i < k ==> !same_ignoring_case(#[trigger] names[i], wanted)
                },
            None => forall|i: int|
                0 <= i < names.len() ==> !same_ignoring_case(#[trigger] names[i], wanted),
        },
    decreases names.len(),
{
    if names.len() > 0 {
        if same_ignoring_case(names[0], wanted) {
            assert(names[0] == find_name(names, wanted)->0);
        } else {
            let rest = names.skip(1);
            names_are_found_whatever_their_capitals(rest, wanted);
            match find_name(rest, wanted) {
                Some(name) => {
                    let k = choose|k: int|
                        {
                            &&& 0 <= k < rest.len()
                            &&& #[trigger] rest[k] == name
                            &&& same_ignoring_case(name, wanted)
                            &&& forall|i: int|
                                0 <= i < k ==> !same_ignoring_case(#[trigger] rest[i], wanted)
                        };
                    assert(names[k + 1] == name);
                    assert forall|i: int| 0 <= i < k + 1 implies !same_ignoring_case(
                        #[trigger] names[i],
                        wanted,
                    ) by {
                        if i > 0 {
                            assert(rest[i - 1] == names[i]);
                        }
                    }
                },
                None => {
                    assert forall|i: int| 0 <= i < names.len() implies !same_ignoring_case(
                        #[trigger] names[i],
                        wanted,
                    ) by {
                        if i > 0 {
                            assert(rest[i - 1] == names[i]);
                        }
                    }
                },
            }
        }
    }
}

/// Names are the same but for capitals if each letter is the same or its counterpart.
pub proof fn letters_and_their_capitals(a: Seq<char>, b: Seq<char>)
    ensures
        same_ignoring_case(a, b) <==> a.len() == b.len() && forall|i: int|
            0 <= i < a.len() ==> {
                ||| #[trigger] a[i] == b[i]
                ||| 'a' <= a[i] <= 'z' && b[i] as int == a[i] as int - 32
                ||| 'A' <= a[i] <= 'Z' && b[i] as int == a[i] as int + 32
            },
{
    if a.len() == b.len() {
        assert forall|i: int| 0 <= i < a.len() implies (upper_char(a[i]) == upper_char(b[i]) <==> {
            ||| #[trigger] a[i] == b[i]
            ||| 'a' <= a[i] <= 'z' && b[i] as int == a[i] as int - 32
            ||| 'A' <= a[i] <= 'Z' && b[i] as int == a[i] as int + 32
        }) by {
            let (x, y) = (a[i], b[i]);
            assert('a' <= x <= 'z' ==> upper_char(x) as int == x as int - 32);
            assert('a' <= y <= 'z' ==> upper_char(y) as int == y as int - 32);
        }
        if same_ignoring_case(a, b) {
            assert forall|i: int| 0 <= i < a.len() implies {
                ||| #[trigger] a[i] == b[i]
                ||| 'a' <= a[i] <= 'z' && b[i] as int == a[i] as int - 32
                ||| 'A' <= a[i] <= 'Z' && b[i] as int == a[i] as int + 32
            } by {
                assert(upper_char(a[i]) == upper_char(b[i]));
            }
        }
    }
}

/// A family that is there is used; otherwise the first of the usual ones that is, and then the
/// first of all.
pub proof fn families_are_resolved(
    names: Seq<Seq<char>>,
    requested: Seq<char>,
    usual: Seq<Seq<char>>,
)
    ensures
        ({
            let family = resolved_family(names, requested, usual);
            &&& find_name(names, requested) matches Some(name) ==> family == name
            &&& names.len() > 0 ==> names.contains(family)
            &&& names.len() == 0 ==> family.len() == 0
            &&& find_name(names, requested) is None ==> (forall|k: int|
                0 <= k < usual.len() && find_name(names, #[trigger] usual[k]) is Some && (forall|
                    i: int,
                | 0 <= i < k ==> find_name(names, #[trigger] usual[i]) is None) ==> family
                    == find_name(names, usual[k])->0)
        }),
{
    names_are_found_whatever_their_capitals(names, requested);
    a_usual_family_is_found(names, usual);
    if names.len() > 0 {
        assert(names[0] == names[0]);
    }
}

proof fn a_usual_family_is_found(names: Seq<Seq<char>>, usual: Seq<Seq<char>>)
    ensures
        find_any(names, usual) matches Some(name) ==> names.contains(name),
        forall|k: int|
            0 <= k < usual.len() && find_name(names, #[trigger] usual[k]) is Some && (forall|i: int|
                0 <= i < k ==> find_name(names, #[trigger] usual[i]) is None) ==> find_any(
                names,
                usual,
            ) == find_name(names, usual[k]),
    decreases usual.len(),
{
    if usual.len() > 0 {
        names_are_found_whatever_their_capitals(names, usual[0]);
        let rest = usual.skip(1);
        a_usual_family_is_found(names, rest);
        assert forall|k: int|
            0 <= k < usual.len() && find_name(names, #[trigger] usual[k]) is Some && (forall|i: int|
                0 <= i < k ==> find_name(names, #[trigger] usual[i]) is None) implies find_any(
            names,
            usual,
        ) == find_name(names, usual[k]) by {
            if k > 0 {
                assert(find_name(names, usual[0]) is None);
                assert(rest[k - 1] == usual[k]);
                assert forall|i: int| 0 <= i < k - 1 implies find_name(
                    names,
                    #[trigger] rest[i],
                ) is None by {
                    assert(rest[i] == usual[i + 1]);
                }
            }
        }
    }
}

/// Every face with a family has its style, and no other has one.
pub proof fn every_face_has_its_style(faces: Seq<FaceInfo>)
    requires
        faces.len() <= usize::MAX,
    ensures
        styles_of(faces).len() == faces.filter(|face: FaceInfo| face.family is Some).len(),
        forall|i: int|
            0 <= i < styles_of(faces).len() ==> {
                let style = #[trigger] styles_of(faces)[i];
                &&& style.face < faces.len()
                &&& is_of(faces[style.face as int], style.family)
                &&& style.weight == faces[style.face as int].weight
                &&& style.upright == faces[style.face as int].upright
            },
    decreases faces.len(),
{
    reveal(Seq::filter);
    if faces.len() > 0 {
        let before = faces.drop_last();
        every_face_has_its_style(before);
        let (some, all) = (styles_of(before), styles_of(faces));
        assert forall|i: int| 0 <= i < all.len() implies {
            let style = #[trigger] all[i];
            &&& style.face < faces.len()
            &&& is_of(faces[style.face as int], style.family)
            &&& style.weight == faces[style.face as int].weight
            &&& style.upright == faces[style.face as int].upright
        } by {
            if i < some.len() {
                assert(some[i] == all[i]);
                assert(before[some[i].face as int] == faces[some[i].face as int]);
            }
        }
    }
}

/// A weight is called by its number, with a word before it where it is a usual one.
pub proof fn weights_are_called_by_their_number(weight: u16)
    ensures
        ({
            let name = weight_name(weight);
            let digits = decimal_text(weight as nat);
            &&& name.len() >= digits.len()
            &&& name.skip(name.len() - digits.len()) == digits
            &&& name.len() > digits.len() <==> 100 <= weight <= 900 && weight % 100 == 0
        }),
        weight_name(400) == "常规 "@ + decimal_text(400),
        weight_name(700) == "粗体 "@ + decimal_text(700),
{
    reveal_strlit("极细 ");
    reveal_strlit("特细 ");
    reveal_strlit("细体 ");
    reveal_strlit("常规 ");
    reveal_strlit("中等 ");
    reveal_strlit("半粗 ");
    reveal_strlit("粗体 ");
    reveal_strlit("特粗 ");
    reveal_strlit("黑体 ");
    let name = weight_name(weight);
    let digits = decimal_text(weight as nat);
    assert(name.skip(name.len() - digits.len()) == digits);
}

/// The weight that was asked for is used if the family has it, and the regular one, 400, if it has
/// only that.
pub proof fn weights_that_are_there_are_used(
    styles: Seq<StyleView>,
    family: Seq<char>,
    requested: u16,
    weight: u16,
    at: int,
)
    requires
        0 <= at < styles.len(),
        styles[at].family == family,
        styles[at].upright,
        is_resolved_weight(styles, family, requested, weight),
    ensures
        styles[at].weight == requested ==> weight == requested,
        styles[at].weight == 400 && weight != requested ==> weight == 400,
        exists|i: int|
            0 <= i < styles.len() && (#[trigger] styles[i]).family == family && styles[i].upright
                && styles[i].weight == weight,
{
    assert(has_upright(styles, family));
    assert(is_usable(styles, family, at));
    let k = choose|k: int| #[trigger] is_usable(styles, family, k) && styles[k].weight == weight;
    assert(comes_in(styles, family, weight));
    assert(styles[k].family == family);
}

} // verus!
