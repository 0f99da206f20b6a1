//! Toast notifications as data.
//!
//! The host notification facility renders these values; building them is
//! plain data work and lives here, while the calls into the host's
//! notification API stay outside the library.

use vstd::prelude::*;

use crate::bytes::clone_bytes;

pub mod action;
pub mod header;
pub mod image;
pub mod text;

use text::Text;

verus! {

/// Why a shown toast stopped being shown.
#[derive(Debug, Clone, Copy, PartialEq, Eq, Structural)]
pub enum DismissalReason {
    /// The user dismissed it.
    UserCanceled,
    /// The application hid it.
    ApplicationHidden,
    /// It was shown for the maximum time and faded out.
    TimedOut,
}

/// Errors out of the host notification facility.
#[derive(Debug, Clone, Copy, PartialEq, Eq, Structural)]
pub enum WinToastError {
    /// The host API failed.
    Os,
    /// An input/output step failed.
    Io,
    /// A path that is not absolute cannot name an image.
    InvalidPath,
    /// The host reported a dismissal reason outside the known set.
    InvalidDismissalReason,
}

/// The scenario a toast is used for.
#[derive(Debug, Clone, Copy, PartialEq, Eq, Structural)]
pub enum Scenario {
    Reminder,
    Alarm,
    IncomingCall,
    Urgent,
}

impl Scenario {
    /// The attribute value naming this scenario.
    pub fn as_str(&self) -> (r: &'static str)
        ensures
            r@ == match self {
                Scenario::Reminder => "reminder"@,
                Scenario::Alarm => "alarm"@,
                Scenario::IncomingCall => "incomingCall"@,
                Scenario::Urgent => "urgent"@,
            },
    {
        match self {
            Scenario::Reminder => "reminder",
            Scenario::Alarm => "alarm",
            Scenario::IncomingCall => "incomingCall",
            Scenario::Urgent => "urgent",
        }
    }
}

/// How long a toast stays on screen.
#[derive(Debug, Clone, Copy, PartialEq, Eq, Structural)]
pub enum ToastDuration {
    Long,
    Short,
}

impl ToastDuration {
    /// The attribute value naming this duration.
    pub fn as_str(&self) -> (r: &'static str)
        ensures
            r@ == match self {
                ToastDuration::Long => "long"@,
                ToastDuration::Short => "short"@,
            },
    {
        match self {
            ToastDuration::Long => "long",
            ToastDuration::Short => "short",
        }
    }
}

/// One toast notification.
#[derive(Debug)]
pub struct Toast {
    pub header: Option<header::Header>,
    /// Up to three text lines: title, body, attribution.
    pub text: (Option<Text>, Option<Text>, Option<Text>),
    /// Images keyed by their template position; one image per position.
    pub images: Vec<(u8, image::Image)>,
    pub tag: Option<Vec<u8>>,
    pub group: Option<Vec<u8>>,
    pub remote_id: Option<Vec<u8>>,
    /// Seconds until the shown toast leaves the notification center.
    pub expires_in_secs: Option<u64>,
    pub scenario: Option<Scenario>,
    pub launch: Option<Vec<u8>>,
    pub duration: Option<ToastDuration>,
    pub actions: Vec<action::Action>,
}

impl Toast {
    /// An empty toast.
    pub fn new() -> (r: Self)
        ensures
            r.header is None,
            r.text.0 is None,
            r.text.1 is None,
            r.text.2 is None,
            r.images@.len() == 0,
            r.tag is None,
            r.group is None,
            r.remote_id is None,
            r.expires_in_secs is None,
            r.scenario is None,
            r.launch is None,
            r.duration is None,
            r.actions@.len() == 0,
    {
        Toast {
            header: None,
            text: (None, None, None),
            images: Vec::new(),
            tag: None,
            group: None,
            remote_id: None,
            expires_in_secs: None,
            scenario: None,
            launch: None,
            duration: None,
            actions: Vec::new(),
        }
    }

    /// Set the header.
    pub fn header(&mut self, header: header::Header)
        ensures
            *final(self) == (Toast { header: Some(header), ..*old(self) }),
    {
        self.header = Some(header);
    }

    /// The first text line, usually the title.
    pub fn text1(&mut self, text: Text)
        ensures
            *final(self) == (Toast { text: (Some(text), old(self).text.1, old(self).text.2), ..*old(self) }),
    {
        self.text = (Some(text), self.text.1.take(), self.text.2.take());
    }

    /// The second text line, usually the body.
    pub fn text2(&mut self, text: Text)
        ensures
            *final(self) == (Toast { text: (old(self).text.0, Some(text), old(self).text.2), ..*old(self) }),
    {
        self.text = (self.text.0.take(), Some(text), self.text.2.take());
    }

    /// The third text line, usually the attribution.
    pub fn text3(&mut self, text: Text)
        ensures
            *final(self) == (Toast { text: (old(self).text.0, old(self).text.1, Some(text)), ..*old(self) }),
    {
        self.text = (self.text.0.take(), self.text.1.take(), Some(text));
    }

    /// Set the image for a template position: an earlier image at the same
    /// position leaves, the new one joins at the end, and nothing else of
    /// the toast changes.
    pub fn image(&mut self, id: u8, image: image::Image)
        ensures
            final(self).images@ =~= drop_image(old(self).images@, id).push((id, image)),
            final(self).header == old(self).header,
            final(self).text == old(self).text,
            final(self).tag == old(self).tag,
            final(self).group == old(self).group,
            final(self).remote_id == old(self).remote_id,
            final(self).expires_in_secs == old(self).expires_in_secs,
            final(self).scenario == old(self).scenario,
            final(self).launch == old(self).launch,
            final(self).duration == old(self).duration,
            final(self).actions == old(self).actions,
    {
        let n: usize = self.images.len();
        let mut i: usize = 0;
        let mut pos: Option<usize> = None;
        while i < n
            invariant
                n == self.images@.len(),
                0 <= i <= n,
                match pos {
                    Some(p) => 0 <= p < i && self.images@[p as int].0 == id
                        && forall|k: int| 0 <= k < p ==> self.images@[k].0 != id,
                    None => forall|k: int| 0 <= k < i ==> self.images@[k].0 != id,
                },
            decreases n - i,
        {
            if self.images[i].0 == id && pos.is_none() {
                pos = Some(i);
            }
            i = i + 1;
        }
        match pos {
            Some(p) => {
                proof {
                    lemma_drop_image_at(self.images@, id, p as int);
                }
                self.images.remove(p);
            },
            None => {
                proof {
                    lemma_drop_image_absent(self.images@, id);
                }
            },
        }
        self.images.push((id, image));
    }

    /// Add an action button.
    pub fn action(&mut self, action: action::Action)
        ensures
            final(self).actions@ == old(self).actions@.push(action),
            final(self).text == old(self).text,
    {
        self.actions.push(action);
    }

    /// Set the tag, the toast's primary key within its group.
    pub fn tag(&mut self, tag: Vec<u8>)
        ensures
            *final(self) == (Toast { tag: Some(tag), ..*old(self) }),
    {
        self.tag = Some(tag);
    }

    /// Set the group.
    pub fn group(&mut self, group: Vec<u8>)
        ensures
            *final(self) == (Toast { group: Some(group), ..*old(self) }),
    {
        self.group = Some(group);
    }

    /// Correlate this toast with one raised on another device.
    pub fn remote_id(&mut self, remote_id: Vec<u8>)
        ensures
            *final(self) == (Toast { remote_id: Some(remote_id), ..*old(self) }),
    {
        self.remote_id = Some(remote_id);
    }

    /// Set the scenario.
    pub fn scenario(&mut self, scenario: Scenario)
        ensures
            *final(self) == (Toast { scenario: Some(scenario), ..*old(self) }),
    {
        self.scenario = Some(scenario);
    }

    /// The argument handed back when the user activates the toast.
    pub fn launch(&mut self, launch: Vec<u8>)
        ensures
            *final(self) == (Toast { launch: Some(launch), ..*old(self) }),
    {
        self.launch = Some(launch);
    }

    /// Set the display duration.
    pub fn duration(&mut self, duration: ToastDuration)
        ensures
            *final(self) == (Toast { duration: Some(duration), ..*old(self) }),
    {
        self.duration = Some(duration);
    }

    /// Remove the shown toast after this many seconds.
    pub fn expires_in(&mut self, secs: u64)
        ensures
            *final(self) == (Toast { expires_in_secs: Some(secs), ..*old(self) }),
    {
        self.expires_in_secs = Some(secs);
    }
}

/// The image list with the first entry for `id` taken out.
pub open spec fn drop_image(imgs: Seq<(u8, image::Image)>, id: u8) -> Seq<(u8, image::Image)>
    decreases imgs.len(),
{
    if imgs.len() == 0 {
        imgs
    } else if imgs[0].0 == id {
        imgs.drop_first()
    } else {
        seq![imgs[0]] + drop_image(imgs.drop_first(), id)
    }
}

/// Dropping at the first matching index is removal there.
proof fn lemma_drop_image_at(imgs: Seq<(u8, image::Image)>, id: u8, p: int)
    requires
        0 <= p < imgs.len(),
        imgs[p].0 == id,
        forall|k: int| 0 <= k < p ==> imgs[k].0 != id,
    ensures
        drop_image(imgs, id) =~= imgs.remove(p),
    decreases p,
{
    if p > 0 {
        lemma_drop_image_at(imgs.drop_first(), id, p - 1);
        assert(imgs.drop_first().remove(p - 1) =~= imgs.remove(p).drop_first());
        assert(seq![imgs[0]] + imgs.remove(p).drop_first() =~= imgs.remove(p));
    }
}

/// Without a matching entry nothing is dropped.
proof fn lemma_drop_image_absent(imgs: Seq<(u8, image::Image)>, id: u8)
    requires
        forall|k: int| 0 <= k < imgs.len() ==> imgs[k].0 != id,
    ensures
        drop_image(imgs, id) =~= imgs,
    decreases imgs.len(),
{
    if imgs.len() > 0 {
        lemma_drop_image_absent(imgs.drop_first(), id);
        assert(seq![imgs[0]] + imgs.drop_first() =~= imgs);
    }
}

/// A handle on the host notification facility, remembering the application
/// id toasts are shown under. Showing and removing toasts are host API
/// calls made outside the library.
#[derive(Debug)]
pub struct ToastManager {
    /// The Application User Model ID toasts are attributed to.
    pub app_id: Vec<u8>,
}

impl ToastManager {
    /// A manager for the given application id.
    pub fn new(aum_id: &[u8]) -> (r: Self)
        ensures
            r.app_id@ == aum_id@,
    {
        ToastManager { app_id: clone_bytes(aum_id) }
    }
}

/// A plain toast with a title and optional body and attribution lines, as
/// connection events are announced.
pub fn simple_toast_value(title: Vec<u8>, content: Option<Vec<u8>>, attribution: Option<Vec<u8>>)
    -> (r: Toast)
    ensures
        r.text.0 matches Some(t) && t.content@ == title@ && t.placement is None,
        match content {
            Some(c) => r.text.1 matches Some(t) && t.content@ == c@ && t.placement is None,
            None => r.text.1 is None,
        },
        match attribution {
            Some(a) => r.text.2 matches Some(t) && t.content@ == a@
                && t.placement == Some(text::TextPlacement::Attribution),
            None => r.text.2 is None,
        },
{
    let mut toast = Toast::new();
    toast.text1(Text::new(title));
    match content {
        Some(c) => {
            toast.text2(Text::new(c));
        },
        None => {
        },
    }
    match attribution {
        Some(a) => {
            toast.text3(Text::new(a).as_attribution());
        },
        None => {
        },
    }
    toast
}

} // verus!
