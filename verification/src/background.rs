//! The picture behind the program's window.

use vstd::prelude::*;

use crate::chars::{chars_of, is_space, is_whitespace, string_of, trim, trimmed};

verus! {

#[derive(Debug, Clone, Copy, PartialEq, Eq, Structural)]
pub enum AppBackgroundSource {
    Off,
    Local,
    Online,
}

impl AppBackgroundSource {
    pub fn label(self) -> (label: &'static str)
        ensures
            label@ == match self {
                AppBackgroundSource::Off => "不使用背景"@,
                AppBackgroundSource::Local => "本地图片"@,
                AppBackgroundSource::Online => "在线图片"@,
            },
    {
        match self {
            AppBackgroundSource::Off => "不使用背景",
            AppBackgroundSource::Local => "本地图片",
            AppBackgroundSource::Online => "在线图片",
        }
    }
}

/// The lower case of an ASCII letter; other characters stay.
pub open spec fn lower_char(c: char) -> char {
    if 'A' <= c <= 'Z' {
        (c as int + 32) as char
    } else {
        c
    }
}

/// A text begins with another, whatever the case of its ASCII letters.
pub open spec fn begins_with(text: Seq<char>, prefix: Seq<char>) -> bool {
    text.len() >= prefix.len() && forall|i: int|
        0 <= i < prefix.len() ==> lower_char(#[trigger] text[i]) == prefix[i]
}

/// The length of `https://` or `http://` at the start of an address, or zero.
pub open spec fn scheme_len(address: Seq<char>) -> int {
    if begins_with(address, "https://"@) {
        8
    } else if begins_with(address, "http://"@) {
        7
    } else {
        0
    }
}

/// A character that ends the name of a host.
pub open spec fn ends_host(c: char) -> bool {
    c == '/' || c == '?' || c == '#'
}

/// The address of a picture, or why an input is none.
pub open spec fn picture_address(input: Seq<char>) -> Result<Seq<char>, Seq<char>> {
    let address = trim(input);
    let scheme = scheme_len(address);
    if address.len() == 0 {
        Err("请输入在线图片地址"@)
    } else if exists|i: int| 0 <= i < trim(input).len() && is_space(#[trigger] trim(input)[i]) {
        Err("在线图片地址不能包含空格"@)
    } else if scheme == 0 {
        Err("在线图片地址必须以 http:// 或 https:// 开头"@)
    } else if address.len() == scheme || ends_host(address[scheme]) {
        Err("在线图片地址缺少有效的主机名"@)
    } else {
        Ok(address)
    }
}

fn has_prefix(chars: &Vec<char>, prefix: &str) -> (yes: bool)
    ensures
        yes == begins_with(chars@, prefix@),
{
    let wanted = chars_of(prefix);
    if chars.len() < wanted.len() {
        return false;
    }
    let mut i: usize = 0;
    while i < wanted.len()
        invariant
            i <= wanted.len() <= chars.len(),
            wanted@ == prefix@,
            forall|k: int| 0 <= k < i ==> lower_char(#[trigger] chars@[k]) == prefix@[k],
        decreases wanted.len() - i,
    {
        let c = chars[i];
        let lower: char = if 'A' <= c && c <= 'Z' {
            (c as u8 + 32) as char
        } else {
            c
        };
        if lower != wanted[i] {
            assert(lower_char(chars@[i as int]) != prefix@[i as int]);
            return false;
        }
        i += 1;
    }
    true
}

pub fn normalized_online_image_url(input: &str) -> (result: Result<String, &'static str>)
    ensures
        match picture_address(input@) {
            Ok(address) => result matches Ok(url) && url@ == address,
            Err(reason) => result matches Err(message) && message@ == reason,
        },
{
    let address = trimmed(input);
    if address.len() == 0 {
        return Err("请输入在线图片地址");
    }
    let mut i: usize = 0;
    while i < address.len()
        invariant
            i <= address.len(),
            address@ == trim(input@),
            address@.len() > 0,
            forall|k: int| 0 <= k < i ==> !is_space(#[trigger] address@[k]),
        decreases address.len() - i,
    {
        if is_whitespace(address[i]) {
            assert(is_space(trim(input@)[i as int]));
            return Err("在线图片地址不能包含空格");
        }
        i += 1;
    }
    proof {
        reveal_strlit("https://");
        reveal_strlit("http://");
    }
    let scheme: usize = if has_prefix(&address, "https://") {
        8
    } else if has_prefix(&address, "http://") {
        7
    } else {
        return Err("在线图片地址必须以 http:// 或 https:// 开头");
    };
    if address.len() == scheme || address[scheme] == '/' || address[scheme] == '?'
        || address[scheme] == '#' {
        return Err("在线图片地址缺少有效的主机名");
    }
    Ok(string_of(address.as_slice()))
}

/// Applies the address of an online picture: gives the address, and whether it or the source
/// has changed with it.
pub fn apply_online_address(
    draft: &str,
    applied: &str,
    source: AppBackgroundSource,
) -> (result: Result<(String, bool), &'static str>)
    ensures
        match picture_address(draft@) {
            Ok(address) => {
                &&& result matches Ok(outcome)
                &&& outcome.0@ == address
                &&& outcome.1 == (address != applied@ || source != AppBackgroundSource::Online)
            },
            Err(reason) => result matches Err(message) && message@ == reason,
        },
{
    match normalized_online_image_url(draft) {
        Ok(url) => {
            let changed = url != applied.to_owned() || source != AppBackgroundSource::Online;
            Ok((url, changed))
        },
        Err(message) => Err(message),
    }
}

/// A path with slashes only.
pub open spec fn with_slashes(path: Seq<char>) -> Seq<char> {
    Seq::new(
        path.len(),
        |i: int|
            if path[i] == '\\' {
                '/'
            } else {
                path[i]
            },
    )
}

/// The address of a picture on disk or on a share.
pub open spec fn file_address(path: Seq<char>) -> Seq<char> {
    let slashed = with_slashes(path);
    if slashed.len() >= 2 && slashed[0] == '/' && slashed[1] == '/' {
        "file://"@ + slashed.skip(2)
    } else {
        "file:///"@ + slashed
    }
}

pub fn local_background_uri(path: &str) -> (uri: String)
    ensures
        uri@ == file_address(path@),
{
    let mut chars = chars_of(path);
    let mut i: usize = 0;
    while i < chars.len()
        invariant
            i <= chars.len(),
            chars@.len() == path@.len(),
            forall|k: int| 0 <= k < i ==> #[trigger] chars@[k] == with_slashes(path@)[k],
            forall|k: int| i <= k < chars@.len() ==> #[trigger] chars@[k] == path@[k],
        decreases chars.len() - i,
    {
        if chars[i] == '\\' {
            chars.set(i, '/');
        }
        i += 1;
    }
    assert(chars@ =~= with_slashes(path@));
    if chars.len() >= 2 && chars[0] == '/' && chars[1] == '/' {
        let rest = chars.split_off(2);
        assert(rest@ =~= with_slashes(path@).skip(2));
        let mut uri = "file://".to_owned();
        uri.append(string_of(rest.as_slice()).as_str());
        uri
    } else {
        let mut uri = "file:///".to_owned();
        uri.append(string_of(chars.as_slice()).as_str());
        uri
    }
}

/// The address of the picture that is set, if one is.
pub open spec fn background_address(
    source: AppBackgroundSource,
    local_path: Seq<char>,
    online_url: Seq<char>,
) -> Option<Seq<char>> {
    match source {
        AppBackgroundSource::Off => None,
        AppBackgroundSource::Local => if trim(local_path).len() == 0 {
            None
        } else {
            Some(file_address(trim(local_path)))
        },
        AppBackgroundSource::Online => if trim(online_url).len() == 0 {
            None
        } else {
            Some(trim(online_url))
        },
    }
}

pub fn background_image_uri(source: AppBackgroundSource, local_path: &str, online_url: &str) -> (uri:
    Option<String>)
    ensures
        match background_address(source, local_path@, online_url@) {
            Some(address) => uri matches Some(uri) && uri@ == address,
            None => uri is None,
        },
{
    match source {
        AppBackgroundSource::Off => None,
        AppBackgroundSource::Local => {
            let path = trimmed(local_path);
            if path.is_empty() {
                None
            } else {
                Some(local_background_uri(string_of(path.as_slice()).as_str()))
            }
        },
        AppBackgroundSource::Online => {
            let url = trimmed(online_url);
            if url.is_empty() {
                None
            } else {
                Some(string_of(url.as_slice()))
            }
        },
    }
}

pub fn has_configured_background(
    source: AppBackgroundSource,
    local_path: &str,
    online_url: &str,
) -> (configured: bool)
    ensures
        configured == (background_address(source, local_path@, online_url@) is Some),
{
    match source {
        AppBackgroundSource::Off => false,
        AppBackgroundSource::Local => !trimmed(local_path).is_empty(),
        AppBackgroundSource::Online => !trimmed(online_url).is_empty(),
    }
}

#[derive(Debug)]
pub enum BackgroundLoadState {
    Idle,
    Loading,
    Ready,
    Error(String),
}

#[verifier::ext_equal]
pub enum LoadView {
    Idle,
    Loading,
    Ready,
    Error(Seq<char>),
}

impl View for BackgroundLoadState {
    type V = LoadView;

    open spec fn view(&self) -> LoadView {
        match self {
            BackgroundLoadState::Idle => LoadView::Idle,
            BackgroundLoadState::Loading => LoadView::Loading,
            BackgroundLoadState::Ready => LoadView::Ready,
            BackgroundLoadState::Error(message) => LoadView::Error(message@),
        }
    }
}

/// What a status of the picture is about.
#[derive(Clone, Copy, Debug, PartialEq, Eq, Structural)]
pub enum BackgroundStatus {
    /// The address in the input is not the one in use.
    DraftChanged,
    /// There is no picture yet.
    Waiting,
    Loading,
    Ready,
    Failed,
}

/// The picture that is being loaded, and how far that has come.
#[derive(Debug)]
pub struct BackgroundLoad {
    uri: Option<String>,
    state: BackgroundLoadState,
}

#[verifier::ext_equal]
pub struct BackgroundView {
    pub uri: Option<Seq<char>>,
    pub state: LoadView,
}

/// The status of a picture: for one from the network, an address that was not applied comes first.
pub open spec fn load_status(
    state: LoadView,
    online: bool,
    draft: Seq<char>,
    applied: Seq<char>,
) -> BackgroundStatus {
    if online && trim(draft) != trim(applied) {
        BackgroundStatus::DraftChanged
    } else {
        match state {
            LoadView::Idle => BackgroundStatus::Waiting,
            LoadView::Loading => BackgroundStatus::Loading,
            LoadView::Ready => BackgroundStatus::Ready,
            LoadView::Error(_) => BackgroundStatus::Failed,
        }
    }
}

impl BackgroundLoad {
    pub closed spec fn inner(self) -> BackgroundView {
        BackgroundView {
            uri: match self.uri {
                Some(uri) => Some(uri@),
                None => None,
            },
            state: self.state@,
        }
    }

    pub fn new() -> (load: Self)
        ensures
            load.inner() == (BackgroundView { uri: None, state: LoadView::Idle }),
    {
        BackgroundLoad { uri: None, state: BackgroundLoadState::Idle }
    }

    pub fn state(&self) -> (state: &BackgroundLoadState)
        ensures
            state@ == self.inner().state,
    {
        &self.state
    }

    /// There is no picture to show.
    pub fn clear(&mut self)
        ensures
            final(self).inner() == (BackgroundView { uri: None, state: LoadView::Idle }),
    {
        self.uri = None;
        self.state = BackgroundLoadState::Idle;
    }

    /// A picture is to be shown. One that is not the last one begins to load.
    pub fn request(&mut self, uri: &str)
        ensures
            final(self).inner() == if old(self).inner().uri == Some(uri@) {
                old(self).inner()
            } else {
                BackgroundView { uri: Some(uri@), state: LoadView::Loading }
            },
    {
        let same = match &self.uri {
            Some(current) => {
                let wanted = uri.to_owned();
                *current == wanted
            },
            None => false,
        };
        if !same {
            self.uri = Some(uri.to_owned());
            self.state = BackgroundLoadState::Loading;
        }
    }

    pub fn ready(&mut self)
        ensures
            final(self).inner() == (BackgroundView {
                state: LoadView::Ready,
                ..old(self).inner()
            }),
    {
        self.state = BackgroundLoadState::Ready;
    }

    pub fn pending(&mut self)
        ensures
            final(self).inner() == (BackgroundView {
                state: LoadView::Loading,
                ..old(self).inner()
            }),
    {
        self.state = BackgroundLoadState::Loading;
    }

    /// Loading has failed. The user is told of an error once.
    pub fn failed(&mut self, message: String) -> (notice: Option<String>)
        ensures
            final(self).inner() == (BackgroundView {
                state: LoadView::Error(message@),
                ..old(self).inner()
            }),
            if old(self).inner().state == LoadView::Error(message@) {
                notice is None
            } else {
                notice matches Some(notice) && notice@ == "背景图片加载失败："@ + message@
            },
    {
        let known = match &self.state {
            BackgroundLoadState::Error(previous) => *previous == message,
            _ => false,
        };
        let notice = if known {
            None
        } else {
            let mut text = "背景图片加载失败：".to_owned();
            text.append(message.as_str());
            Some(text)
        };
        self.state = BackgroundLoadState::Error(message);
        notice
    }

    /// The picture is to be loaded again. Gives the address to forget.
    pub fn reload(&mut self) -> (forgotten: Option<String>)
        ensures
            final(self).inner() == (BackgroundView { uri: None, state: LoadView::Idle }),
            match old(self).inner().uri {
                Some(uri) => forgotten matches Some(forgotten) && forgotten@ == uri,
                None => forgotten is None,
            },
    {
        let forgotten = self.uri.take();
        self.state = BackgroundLoadState::Idle;
        forgotten
    }

    /// What the settings tell of the picture. A draft of an address that is not applied comes
    /// first.
    pub fn status(&self, online: bool, draft: &str, applied: &str) -> (status: BackgroundStatus)
        ensures
            status == load_status(self.inner().state, online, draft@, applied@),
    {
        if online {
            let draft = string_of(trimmed(draft).as_slice());
            let applied = string_of(trimmed(applied).as_slice());
            if draft != applied {
                return BackgroundStatus::DraftChanged;
            }
        }
        match &self.state {
            BackgroundLoadState::Idle => BackgroundStatus::Waiting,
            BackgroundLoadState::Loading => BackgroundStatus::Loading,
            BackgroundLoadState::Ready => BackgroundStatus::Ready,
            BackgroundLoadState::Error(_) => BackgroundStatus::Failed,
        }
    }

    /// The status in words.
    pub fn status_text(&self, online: bool, draft: &str, applied: &str) -> (text: String)
        ensures
            text@ == match load_status(self.inner().state, online, draft@, applied@) {
                BackgroundStatus::DraftChanged => "地址有修改，点击“应用地址”后生效。"@,
                BackgroundStatus::Waiting => if online {
                    "输入图片地址并点击“应用地址”。"@
                } else {
                    "选择图片后将在这里显示加载状态。"@
                },
                BackgroundStatus::Loading => "正在加载背景图片…"@,
                BackgroundStatus::Ready => "背景图片已加载。"@,
                BackgroundStatus::Failed => "加载失败："@ + self.inner().state->0,
            },
    {
        match self.status(online, draft, applied) {
            BackgroundStatus::DraftChanged => "地址有修改，点击“应用地址”后生效。".to_owned(),
            BackgroundStatus::Waiting => if online {
                "输入图片地址并点击“应用地址”。".to_owned()
            } else {
                "选择图片后将在这里显示加载状态。".to_owned()
            },
            BackgroundStatus::Loading => "正在加载背景图片…".to_owned(),
            BackgroundStatus::Ready => "背景图片已加载。".to_owned(),
            BackgroundStatus::Failed => {
                let mut text = "加载失败：".to_owned();
                if let BackgroundLoadState::Error(message) = &self.state {
                    text.append(message.as_str());
                }
                text
            },
        }
    }
}

pub open spec fn is_decimal_char(c: char) -> bool {
    '0' <= c <= '9' || c == '.'
}

pub open spec fn points_in(text: Seq<char>) -> nat
    decreases text.len(),
{
    if text.len() == 0 {
        0
    } else {
        points_in(text.drop_last()) + if text.last() == '.' {
            1nat
        } else {
            0
        }
    }
}

/// What is wrong with the way an opacity is written.
pub open spec fn opacity_error(input: Seq<char>) -> Option<Seq<char>> {
    let text = trim(input);
    if text.len() == 0 {
        Some("请输入不透明度小数"@)
    } else if points_in(text) > 1 || exists|i: int|
        0 <= i < trim(input).len() && !is_decimal_char(#[trigger] trim(input)[i]) {
        Some("只能输入 0.0 到 1.0 之间的小数"@)
    } else if text == seq!['.'] {
        Some("请输入有效的不透明度小数"@)
    } else {
        None
    }
}

/// Checks that an opacity is written as digits with at most one point among them. Whether it is
/// in range is up to the caller.
pub fn check_opacity_text(input: &str) -> (result: Result<(), &'static str>)
    ensures
        match opacity_error(input@) {
            Some(reason) => result matches Err(message) && message@ == reason,
            None => result is Ok,
        },
{
    let text = trimmed(input);
    if text.len() == 0 {
        return Err("请输入不透明度小数");
    }
    let mut points: usize = 0;
    let mut i: usize = 0;
    let mut valid = true;
    assert(text@.take(0) =~= Seq::<char>::empty());
    while i < text.len()
        invariant
            i <= text.len(),
            text@ == trim(input@),
            points <= i,
            points == points_in(text@.take(i as int)),
            valid == !(exists|k: int| 0 <= k < i && !is_decimal_char(#[trigger] text@[k])),
        decreases text.len() - i,
    {
        assert(text@.take(i + 1).drop_last() == text@.take(i as int));
        let c = text[i];
        if c == '.' {
            points += 1;
        }
        if !(('0' <= c && c <= '9') || c == '.') {
            assert(!is_decimal_char(text@[i as int]));
            valid = false;
        }
        i += 1;
    }
    assert(text@.take(i as int) == text@);
    if points > 1 || !valid {
        return Err("只能输入 0.0 到 1.0 之间的小数");
    }
    if text.len() == 1 && text[0] == '.' {
        assert(text@ =~= seq!['.']);
        return Err("请输入有效的不透明度小数");
    }
    assert(text@ != seq!['.']) by {
        if text@ == seq!['.'] {
            assert(text@.len() == 1 && text@[0] == '.');
        }
    }
    Ok(())
}

/// A number without zeros at its end.
pub open spec fn without_zeros(text: Seq<char>) -> Seq<char>
    decreases text.len(),
{
    if text.len() > 0 && text.last() == '0' {
        without_zeros(text.drop_last())
    } else {
        text
    }
}

/// A number with a point as short as it can be, with at least one digit after the point.
pub open spec fn compact_number(text: Seq<char>) -> Seq<char> {
    let short = without_zeros(text);
    if short.len() > 0 && short.last() == '.' {
        short.push('0')
    } else {
        short
    }
}

/// Shortens an opacity that is written with a fixed number of digits.
pub fn compact_opacity(formatted: &str) -> (text: String)
    ensures
        text@ == compact_number(formatted@),
{
    let mut chars = chars_of(formatted);
    while chars.len() > 0 && chars[chars.len() - 1] == '0'
        invariant
            without_zeros(chars@) == without_zeros(formatted@),
        decreases chars.len(),
    {
        let ghost before = chars@;
        let _ = chars.pop();
        assert(chars@ == before.drop_last());
    }
    if chars.len() > 0 && chars[chars.len() - 1] == '.' {
        chars.push('0');
    }
    string_of(chars.as_slice())
}

/// An address is accepted if, without the spaces around it, there is none in it, it begins with
/// `http://` or `https://` in whatever letters, and a host follows. It is used as it stands.
pub proof fn accepted_addresses(input: Seq<char>)
    ensures
        ({
            let address = trim(input);
            let host = if begins_with(address, "https://"@) {
                8int
            } else {
                7
            };
            picture_address(input) is Ok <==> {
                &&& !(exists|i: int| 0 <= i < trim(input).len() && is_space(#[trigger] trim(input)[i]))
                &&& begins_with(address, "http://"@) || begins_with(address, "https://"@)
                &&& address.len() > host
                &&& address[host] != '/' && address[host] != '?' && address[host] != '#'
            }
        }),
        picture_address(input) matches Ok(address) ==> address == trim(input),
        begins_with(input, "http://"@) ==> input.len() >= 7 && (input[0] == 'h' || input[0]
            == 'H') && (input[1] == 't' || input[1] == 'T') && (input[2] == 't' || input[2] == 'T')
            && (input[3] == 'p' || input[3] == 'P') && input[4] == ':' && input[5] == '/'
            && input[6] == '/',
{
    reveal_strlit("http://");
    reveal_strlit("https://");
    if begins_with(input, "http://"@) {
        let prefix = "http://"@;
        assert(prefix[0] == 'h' && prefix[1] == 't' && prefix[2] == 't' && prefix[3] == 'p');
        assert(prefix[4] == ':' && prefix[5] == '/' && prefix[6] == '/');
        assert(lower_char(input[0]) == 'h' && lower_char(input[1]) == 't');
        assert(lower_char(input[2]) == 't' && lower_char(input[3]) == 'p');
        assert(lower_char(input[4]) == ':' && lower_char(input[5]) == '/');
        assert(lower_char(input[6]) == '/');
    }
}

/// A file is addressed by its path with slashes, behind three of them; a path on the network has
/// two of its own.
pub proof fn files_are_addressed_by_their_path(path: Seq<char>)
    ensures
        ({
            let network = path.len() >= 2 && (path[0] == '\\' || path[0] == '/') && (path[1]
                == '\\' || path[1] == '/');
            let address = file_address(path);
            let start = if network {
                7int
            } else {
                8
            };
            let skipped = if network {
                2int
            } else {
                0
            };
            &&& address.len() == start + path.len() - skipped
            &&& address.take(7) == "file://"@
            &&& !network ==> address[7] == '/'
            &&& forall|i: int|
                skipped <= i < path.len() ==> #[trigger] address[start + i - skipped] == if path[i]
                    == '\\' {
                    '/'
                } else {
                    path[i]
                }
        }),
{
    reveal_strlit("file://");
    reveal_strlit("file:///");
    let address = file_address(path);
    assert("file:///"@.take(7) == "file://"@);
    assert(address.take(7) == "file://"@);
}

/// The picture is the one of the source that is chosen, if an address is set for it.
pub proof fn the_chosen_source_is_shown(local: Seq<char>, online: Seq<char>)
    ensures
        background_address(AppBackgroundSource::Off, local, online) is None,
        background_address(AppBackgroundSource::Local, local, online) == if trim(local).len()
            == 0 {
            None
        } else {
            Some(file_address(trim(local)))
        },
        background_address(AppBackgroundSource::Online, local, online) == if trim(online).len()
            == 0 {
            None
        } else {
            Some(trim(online))
        },
{
}

proof fn points_are_counted(text: Seq<char>)
    ensures
        points_in(text) == text.filter(|c: char| c == '.').len(),
    decreases text.len(),
{
    reveal(Seq::filter);
    if text.len() > 0 {
        points_are_counted(text.drop_last());
    }
}

/// An opacity is written with digits and at most one point, and there is more than the point.
pub proof fn accepted_opacities(input: Seq<char>)
    ensures
        opacity_error(input) is None <==> {
            let text = trim(input);
            &&& text.len() > 0
            &&& text != seq!['.']
            &&& text.filter(|c: char| c == '.').len() <= 1
            &&& forall|i: int|
                0 <= i < trim(input).len() ==> '0' <= #[trigger] trim(input)[i] <= '9' || trim(
                    input,
                )[i] == '.'
        },
{
    points_are_counted(trim(input));
}

/// A number is written without the zeros at its end, but with one behind a point.
pub proof fn zeros_at_the_end_are_dropped(text: Seq<char>) -> (end: int)
    ensures
        0 <= end <= text.len(),
        forall|i: int| end <= i < text.len() ==> #[trigger] text[i] == '0',
        end > 0 ==> text[end - 1] != '0',
        compact_number(text) == if end > 0 && text[end - 1] == '.' {
            text.take(end).push('0')
        } else {
            text.take(end)
        },
{
    zeros_are_dropped(text)
}

proof fn zeros_are_dropped(text: Seq<char>) -> (end: int)
    ensures
        0 <= end <= text.len(),
        forall|i: int| end <= i < text.len() ==> #[trigger] text[i] == '0',
        end > 0 ==> text[end - 1] != '0',
        without_zeros(text) == text.take(end),
    decreases text.len(),
{
    if text.len() > 0 && text.last() == '0' {
        let before = text.drop_last();
        let end = zeros_are_dropped(before);
        assert(before.take(end) == text.take(end));
        assert forall|i: int| end <= i < text.len() implies #[trigger] text[i] == '0' by {
            if i < before.len() {
                assert(before[i] == text[i]);
            }
        }
        if end > 0 {
            assert(before[end - 1] == text[end - 1]);
        }
        end
    } else {
        assert(text.take(text.len() as int) == text);
        text.len() as int
    }
}

/// What is told of a picture: first that the typed address is not in use, then how far loading has
/// come.
pub proof fn what_is_told_of_a_picture(state: LoadView, draft: Seq<char>, applied: Seq<char>)
    ensures
        load_status(state, true, draft, applied) == BackgroundStatus::DraftChanged <==> trim(draft)
            != trim(applied),
        load_status(state, false, draft, applied) != BackgroundStatus::DraftChanged,
        trim(draft) == trim(applied) ==> load_status(state, true, draft, applied) == load_status(
            state,
            false,
            draft,
            applied,
        ),
        load_status(state, false, draft, applied) == BackgroundStatus::Failed <==> state is Error,
        load_status(state, false, draft, applied) == BackgroundStatus::Ready <==> state is Ready,
        load_status(state, false, draft, applied) == BackgroundStatus::Loading <==> state
            is Loading,
{
}

} // verus!
