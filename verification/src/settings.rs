//! The default values of the user settings: each is written when the
//! setting is not set yet.

use vstd::prelude::*;
use vstd::string::*;

verus! {

/// The value of a setting.
pub enum SettingValue {
    Bool(bool),
    Text(String),
}

/// A default: the key of a setting and its value.
pub struct SettingDefault {
    pub key: String,
    pub value: SettingValue,
}

/// The view of a default: key and value as plain values.
pub enum DefaultView {
    Bool(Seq<char>, bool),
    Text(Seq<char>, Seq<char>),
}

/// The plain view of a default.
pub open spec fn default_view(d: SettingDefault) -> DefaultView {
    match d.value {
        SettingValue::Bool(b) => DefaultView::Bool(d.key@, b),
        SettingValue::Text(t) => DefaultView::Text(d.key@, t@),
    }
}

/// The defaults, in the order they are applied; the attachment directory
/// defaults to `attachment_dir`.
pub open spec fn settings_defaults(attachment_dir: Seq<char>) -> Seq<DefaultView> {
    seq![
        DefaultView::Bool("incognito"@, false),
        DefaultView::Bool("enable_notify"@, true),
        DefaultView::Bool("show_notify_message"@, false),
        DefaultView::Bool("minimise_notify"@, false),
        DefaultView::Bool("save_attachments"@, true),
        DefaultView::Bool("share_contacts"@, true),
        DefaultView::Bool("enable_enter_send"@, false),
        DefaultView::Bool("scale_image_attachments"@, false),
        DefaultView::Bool("attachment_log"@, false),
        DefaultView::Bool("quit_on_ui_close"@, true),
        DefaultView::Text("attachment_dir"@, attachment_dir),
    ]
}

fn bool_default(key: &str, value: bool) -> (res: SettingDefault)
    ensures
        default_view(res) == DefaultView::Bool(key@, value),
{
    SettingDefault { key: key.to_owned(), value: SettingValue::Bool(value) }
}

/// The default settings; each is written only where the setting is unset.
pub fn defaults(attachment_dir: String) -> (res: Vec<SettingDefault>)
    ensures
        res@.map_values(|d: SettingDefault| default_view(d)) == settings_defaults(attachment_dir@),
{
    let mut res: Vec<SettingDefault> = Vec::new();
    res.push(bool_default("incognito", false));
    res.push(bool_default("enable_notify", true));
    res.push(bool_default("show_notify_message", false));
    res.push(bool_default("minimise_notify", false));
    res.push(bool_default("save_attachments", true));
    res.push(bool_default("share_contacts", true));
    res.push(bool_default("enable_enter_send", false));
    res.push(bool_default("scale_image_attachments", false));
    res.push(bool_default("attachment_log", false));
    res.push(bool_default("quit_on_ui_close", true));
    let ghost dir = attachment_dir@;
    res.push(
        SettingDefault { key: "attachment_dir".to_owned(), value: SettingValue::Text(attachment_dir) },
    );
    proof {
        assert(res@.map_values(|d: SettingDefault| default_view(d)) =~= settings_defaults(dir));
    }
    res
}

} // verus!
