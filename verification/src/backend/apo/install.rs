//! The audio devices an Equalizer APO `config.txt` names.
use vstd::prelude::*;

use crate::text::{
    byte_len, chars_of, cuts_char, eq_ci, eq_ci_exec, eq_ci_str, lines, lines_exec, prefix_safe,
    push_chars, push_str, rfind, rfind_exec, slice_chars, starts_with_ci, starts_with_ci_str,
    string_of, trim, trim_char_start, trim_char_start_exec, trim_exec, views, prefix_safe_exec,
};

verus! {

pub const HEQ_FILE_NAME: &'static str = "heq.txt";

pub const MAIN_CONFIG_NAME: &'static str = "config.txt";

/// A device heq's include can be placed under; `name: None` is every device.
#[derive(Clone, Debug, PartialEq, Eq)]
pub struct ApoDevice {
    pub name: Option<String>,
    pub currently_disabled: bool,
}

pub struct ApoDeviceView {
    pub name: Option<Seq<char>>,
    pub currently_disabled: bool,
}

impl View for ApoDevice {
    type V = ApoDeviceView;

    open spec fn view(&self) -> ApoDeviceView {
        ApoDeviceView {
            name: match self.name {
                Some(n) => Some(n@),
                None => None,
            },
            currently_disabled: self.currently_disabled,
        }
    }
}

pub open spec fn device_views(v: Seq<ApoDevice>) -> Seq<ApoDeviceView> {
    v.map_values(|d: ApoDevice| d@)
}

/// A device name as shown: without the `{…}` id APO appends, when something precedes it.
pub open spec fn shown_name(name: Seq<char>) -> Seq<char> {
    let i = rfind(name, '{');
    if i > 0 {
        trim(name.take(i))
    } else {
        name
    }
}

pub open spec fn display_spec(d: ApoDeviceView) -> Seq<char> {
    match d.name {
        None => "All devices"@,
        Some(n) => if d.currently_disabled {
            shown_name(n) + "  (disabled)"@
        } else {
            shown_name(n)
        },
    }
}

impl ApoDevice {
    pub fn all_devices() -> (r: ApoDevice)
        ensures
            r@.name.is_none(),
            !r.currently_disabled,
    {
        ApoDevice { name: None, currently_disabled: false }
    }

    pub fn is_all(&self) -> (r: bool)
        ensures
            r == self.name.is_none(),
    {
        self.name.is_none()
    }

    pub fn display(&self) -> (r: String)
        ensures
            r@ == display_spec(self@),
    {
        match &self.name {
            None => {
                let mut s = String::new();
                push_str(&mut s, "All devices");
                assert(s@ =~= "All devices"@);
                s
            },
            Some(name) => {
                let v = chars_of(name.as_str());
                let shown = match rfind_exec(&v, '{') {
                    Some(i) if i > 0 => {
                        let head = slice_chars(&v, 0, i);
                        assert(head@ =~= v@.take(i as int));
                        trim_exec(&head)
                    },
                    _ => v,
                };
                let mut s = string_of(&shown);
                if self.currently_disabled {
                    push_str(&mut s, "  (disabled)");
                }
                s
            },
        }
    }
}

/// A `config.txt` line read for a device: trimmed, and when commented out, its leading `#`s and
/// the space after them removed.
pub open spec fn device_line(raw: Seq<char>) -> Seq<char> {
    let line = trim(raw);
    if line.len() > 0 && line[0] == '#' {
        trim(trim_char_start(line, '#'))
    } else {
        line
    }
}

pub open spec fn is_commented(raw: Seq<char>) -> bool {
    let line = trim(raw);
    line.len() > 0 && line[0] == '#'
}

/// Reading a device line slices its first seven bytes when it has that many; the slice must
/// fall between characters.
pub open spec fn device_lines_safe(text: Seq<char>) -> bool {
    forall|i: int| 0 <= i < lines(text).len() ==> prefix_safe(device_line(#[trigger] lines(text)[i]), 7)
}

/// Some device already listed carries this name, ignoring ASCII case.
pub open spec fn listed(list: Seq<ApoDeviceView>, name: Seq<char>) -> bool {
    exists|k: int| 0 <= k < list.len() && ((#[trigger] list[k]).name matches Some(n) && eq_ci(n, name))
}

/// One line of `config.txt`: a `Device:` line, active or commented out, adds its device unless
/// the name is empty, `all`, or already listed.
pub open spec fn device_step(list: Seq<ApoDeviceView>, raw: Seq<char>) -> Seq<ApoDeviceView> {
    let line = device_line(raw);
    if !starts_with_ci(line, "Device:"@) {
        list
    } else {
        let name = trim(line.skip(7));
        if name.len() == 0 || eq_ci(name, "all"@) || listed(list, name) {
            list
        } else {
            list.push(ApoDeviceView { name: Some(name), currently_disabled: is_commented(raw) })
        }
    }
}

pub open spec fn devices_from(ls: Seq<Seq<char>>) -> Seq<ApoDeviceView>
    decreases ls.len(),
{
    if ls.len() == 0 {
        seq![ApoDeviceView { name: None, currently_disabled: false }]
    } else {
        device_step(devices_from(ls.drop_last()), ls.last())
    }
}

fn is_listed(list: &Vec<ApoDevice>, name: &[char]) -> (r: bool)
    ensures
        r == listed(device_views(list@), name@),
{
    let mut k: usize = 0;
    while k < list.len()
        invariant
            k <= list@.len(),
            forall|j: int|
                0 <= j < k ==> !((#[trigger] device_views(list@)[j]).name matches Some(n) && eq_ci(
                    n,
                    name@,
                )),
        decreases list@.len() - k,
    {
        assert(device_views(list@)[k as int] == list@[k as int]@);
        if let Some(n) = &list[k].name {
            let nv = chars_of(n.as_str());
            if eq_ci_exec(&nv, name) {
                return true;
            }
        }
        k += 1;
    }
    false
}

fn device_line_exec(raw: &[char]) -> (r: Vec<char>)
    ensures
        r@ == device_line(raw@),
{
    let line = trim_exec(raw);
    if line.len() > 0 && line[0] == '#' {
        let t = trim_char_start_exec(&line, '#');
        trim_exec(&t)
    } else {
        line
    }
}

/// Whether reading devices from this text stays clear of a panic (`device_lines_safe`).
pub fn device_lines_are_safe(text: &str) -> (r: bool)
    ensures
        r == device_lines_safe(text@),
{
    let v = chars_of(text);
    let ls = lines_exec(&v);
    let ghost lv = lines(text@);
    assert(views(ls@) == lv);
    let mut i: usize = 0;
    while i < ls.len()
        invariant
            i <= ls@.len(),
            lv == views(ls@),
            lv == lines(text@),
            forall|j: int| 0 <= j < i ==> prefix_safe(device_line(#[trigger] lv[j]), 7),
        decreases ls@.len() - i,
    {
        assert(lv[i as int] == ls@[i as int]@);
        let d = device_line_exec(&ls[i]);
        if !prefix_safe_exec(&d, 7) {
            return false;
        }
        i += 1;
    }
    true
}

/// The devices a `config.txt` names, after "all devices": every `Device:` line, the commented
/// ones marked disabled, each name once.
pub fn devices_in(text: &str) -> (r: Vec<ApoDevice>)
    requires
        device_lines_safe(text@),
    ensures
        device_views(r@) == devices_from(lines(text@)),
{
    let v = chars_of(text);
    let ls = lines_exec(&v);
    let ghost lv = views(ls@);
    let mut list: Vec<ApoDevice> = Vec::new();
    list.push(ApoDevice::all_devices());
    assert(device_views(list@) =~= devices_from(lv.take(0)));
    let mut n: usize = 0;
    while n < ls.len()
        invariant
            lv == views(ls@),
            lv == lines(text@),
            n <= ls@.len(),
            device_views(list@) == devices_from(lv.take(n as int)),
        decreases ls@.len() - n,
    {
        proof {
            assert(lv.take(n + 1).drop_last() =~= lv.take(n as int));
            assert(lv.take(n + 1).last() == ls@[n as int]@);
        }
        let mut line = trim_exec(&ls[n]);
        let commented = line.len() > 0 && line[0] == '#';
        if commented {
            let stripped = trim_char_start_exec(&line, '#');
            line = trim_exec(&stripped);
        }
        n += 1;
        if !starts_with_ci_str(&line, "Device:") {
            continue;
        }
        proof {
            reveal_strlit("Device:");
        }
        let rest = slice_chars(&line, 7, line.len());
        assert(rest@ =~= line@.skip(7));
        let name = trim_exec(&rest);
        if name.len() == 0 || eq_ci_str(&name, "all") || is_listed(&list, &name) {
            continue;
        }
        let ghost before = device_views(list@);
        let d = ApoDevice { name: Some(string_of(&name)), currently_disabled: commented };
        let ghost dv = d@;
        list.push(d);
        assert(device_views(list@) =~= before.push(dv));
    }
    proof {
        assert(lv.take(ls@.len() as int) =~= lv);
    }
    list
}

/// A listed device with a usable name: not empty, not `all`.
pub open spec fn named_device(d: ApoDeviceView) -> bool {
    d.name matches Some(n) && n.len() > 0 && !eq_ci(n, "all"@)
}

/// Two listed devices carry the same name, ignoring ASCII case.
pub open spec fn same_device(a: ApoDeviceView, b: ApoDeviceView) -> bool {
    a.name matches Some(x) && b.name matches Some(y) && eq_ci(x, y)
}

/// The device list starts with "all devices", and then names each device once: every other
/// entry has a name that is not empty, not `all`, and differs (ignoring ASCII case) from every
/// name listed before it.
pub proof fn law_devices_listed_once(ls: Seq<Seq<char>>)
    ensures
        devices_from(ls).len() >= 1,
        devices_from(ls)[0] == (ApoDeviceView { name: None, currently_disabled: false }),
        forall|i: int| 1 <= i < devices_from(ls).len() ==> named_device(#[trigger] devices_from(ls)[i]),
        forall|i: int, j: int|
            0 <= i < j < devices_from(ls).len() ==> !same_device(
                #[trigger] devices_from(ls)[i],
                #[trigger] devices_from(ls)[j],
            ),
    decreases ls.len(),
{
    if ls.len() > 0 {
        let prev = ls.drop_last();
        law_devices_listed_once(prev);
        let list = devices_from(prev);
        let now = devices_from(ls);
        assert(now == device_step(list, ls.last()));
        if now.len() > list.len() {
            assert(now == list.push(now.last()));
            assert forall|i: int, j: int| 0 <= i < j < now.len() implies !same_device(
                #[trigger] now[i],
                #[trigger] now[j],
            ) by {
                if j == now.len() - 1 {
                    if same_device(now[i], now[j]) {
                        assert(list[i] == now[i]);
                        assert(listed(list, trim(device_line(ls.last()).skip(7))));
                    }
                } else {
                    assert(list[i] == now[i]);
                    assert(list[j] == now[j]);
                }
            }
            assert forall|i: int| 1 <= i < now.len() implies named_device(#[trigger] now[i]) by {
                if i < now.len() - 1 {
                    assert(list[i] == now[i]);
                }
            }
        } else {
            assert(now == list);
        }
    }
}

} // verus!
