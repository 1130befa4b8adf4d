//! The messages the engine asks the mail sender to deliver.

use vstd::prelude::*;
use crate::sequences::texts;

verus! {

/// The text of a message, chosen by what happened and filled with the names
/// it speaks of.
#[derive(Debug, PartialEq, Eq)]
pub enum Template {
    /// First warning to those accountable: the membership of the user
    /// `.1` in the group `.0` lapses in fourteen days.
    FirstHostExpiration(String, String),
    /// Second warning to those accountable: the membership of the user
    /// `.1` in the group `.0` lapses in seven days.
    SecondHostExpiration(String, String),
    /// Warning to the member: the membership in the group `.0` lapses in
    /// seven days.
    MemberExpiration(String),
    /// Notice to the former member: the membership in the group `.0` ended.
    DeleteMember(String),
}

/// The mathematical content of a [`Template`].
pub enum TemplateView {
    FirstHostExpiration(Seq<char>, Seq<char>),
    SecondHostExpiration(Seq<char>, Seq<char>),
    MemberExpiration(Seq<char>),
    DeleteMember(Seq<char>),
}

impl View for Template {
    type V = TemplateView;

    open spec fn view(&self) -> TemplateView {
        match self {
            Template::FirstHostExpiration(g, u) => TemplateView::FirstHostExpiration(g@, u@),
            Template::SecondHostExpiration(g, u) => TemplateView::SecondHostExpiration(g@, u@),
            Template::MemberExpiration(g) => TemplateView::MemberExpiration(g@),
            Template::DeleteMember(g) => TemplateView::DeleteMember(g@),
        }
    }
}

/// One request to the mail sender.
#[derive(Debug, PartialEq, Eq)]
pub enum Mail {
    /// A message to one address.
    Single { to: String, template: Template },
    /// A message to several addresses, none of which sees the others.
    Blind { bcc: Vec<String>, template: Template },
}

/// The mathematical content of a [`Mail`].
pub enum MailView {
    Single { to: Seq<char>, template: TemplateView },
    Blind { bcc: Seq<Seq<char>>, template: TemplateView },
}

impl View for Mail {
    type V = MailView;

    open spec fn view(&self) -> MailView {
        match self {
            Mail::Single { to, template } => MailView::Single { to: to@, template: template@ },
            Mail::Blind { bcc, template } => MailView::Blind { bcc: texts(bcc@), template: template@ },
        }
    }
}

/// The mathematical content of a list of mails.
pub open spec fn mails_view(mails: Seq<Mail>) -> Seq<MailView> {
    mails.map_values(|m: Mail| m@)
}

/// A message to the single address `to`.
pub fn send_email(to: String, template: Template) -> (r: Mail)
    ensures
        r@ == (MailView::Single { to: to@, template: template@ }),
{
    Mail::Single { to, template }
}

/// A message to the addresses `bcc`, blind-copied.
pub fn send_emails(bcc: Vec<String>, template: Template) -> (r: Mail)
    ensures
        r@ == (MailView::Blind { bcc: texts(bcc@), template: template@ }),
{
    Mail::Blind { bcc, template }
}

} // verus!
