//! The message builders of serenity, and what a built value holds.

use poise::serenity_prelude::CreateAllowedMentions;
use poise::serenity_prelude::CreateEmbed;
use poise::serenity_prelude::CreateEmbedFooter;
use vstd::prelude::*;

verus! {

/// serenity's builder of a message embed.
#[verifier::external_type_specification]
#[verifier::external_body]
pub struct ExCreateEmbed(CreateEmbed);

/// serenity's builder of an embed footer.
#[verifier::external_type_specification]
#[verifier::external_body]
pub struct ExCreateEmbedFooter(CreateEmbedFooter);

/// serenity's builder of the mentions that a message may make.
#[verifier::external_type_specification]
#[verifier::external_body]
pub struct ExCreateAllowedMentions(CreateAllowedMentions);

/// A field of an embed.
pub struct FieldContents {
    pub name: Seq<char>,
    pub value: Seq<char>,
    pub inline: bool,
}

/// What a footer holds: its text, and whether it has no icon.
pub struct FooterContents {
    pub text: Seq<char>,
    pub without_icon: bool,
}

/// What an embed holds. It is `plain` as long as it has no URL, timestamp, image, thumbnail,
/// video, provider or author.
pub struct EmbedContents {
    pub kind: Option<Seq<char>>,
    pub title: Option<Seq<char>>,
    pub description: Option<Seq<char>>,
    pub colour: Option<u32>,
    pub footer: Option<FooterContents>,
    pub fields: Seq<FieldContents>,
    pub plain: bool,
}

/// The mentions that a message may make: all users, all roles, everyone; whether the author
/// of the message replied to is mentioned, if that is settled; and whether no single user or
/// role is listed.
pub struct MentionContents {
    pub all_users: bool,
    pub all_roles: bool,
    pub everyone: bool,
    pub replied_user: Option<bool>,
    pub none_listed: bool,
}

/// What the embed holds.
pub uninterp spec fn embed_contents(embed: CreateEmbed) -> EmbedContents;

/// What the footer holds.
pub uninterp spec fn footer_contents(footer: CreateEmbedFooter) -> FooterContents;

/// Which mentions are allowed.
pub uninterp spec fn mention_contents(mentions: CreateAllowedMentions) -> MentionContents;

/// `CreateEmbed::new`: an embed of the type `rich` in which nothing else is set.
pub assume_specification[ CreateEmbed::new ]() -> (r: CreateEmbed)
    ensures
        embed_contents(r) == (EmbedContents {
            kind: Some("rich"@),
            title: None,
            description: None,
            colour: None,
            footer: None,
            fields: Seq::empty(),
            plain: true,
        }),
;

/// `CreateEmbed::footer`: sets the footer and nothing else.
pub assume_specification[ CreateEmbed::footer ](
    embed: CreateEmbed,
    footer: CreateEmbedFooter,
) -> (r: CreateEmbed)
    ensures
        embed_contents(r) == (EmbedContents {
            footer: Some(footer_contents(footer)),
            ..embed_contents(embed)
        }),
;

/// `CreateEmbed::title`: sets the title and nothing else.
#[verifier::external_body]
pub(crate) fn with_title(embed: CreateEmbed, title: String) -> (r: CreateEmbed)
    ensures
        embed_contents(r) == (EmbedContents { title: Some(title@), ..embed_contents(embed) }),
{
    embed.title(title)
}

/// `CreateEmbed::description`: sets the description and nothing else.
#[verifier::external_body]
pub(crate) fn with_description(embed: CreateEmbed, description: String) -> (r: CreateEmbed)
    ensures
        embed_contents(r) == (EmbedContents {
            description: Some(description@),
            ..embed_contents(embed)
        }),
{
    embed.description(description)
}

/// `CreateEmbed::color`: sets the colour, given as a number, and nothing else.
#[verifier::external_body]
pub(crate) fn with_colour(embed: CreateEmbed, colour: u32) -> (r: CreateEmbed)
    ensures
        embed_contents(r) == (EmbedContents { colour: Some(colour), ..embed_contents(embed) }),
{
    embed.color(colour)
}

/// `CreateEmbed::field`: adds a field after those that are there, and changes nothing else.
#[verifier::external_body]
pub(crate) fn with_field(
    embed: CreateEmbed,
    name: &str,
    value: String,
    inline: bool,
) -> (r: CreateEmbed)
    ensures
        embed_contents(r) == (EmbedContents {
            fields: embed_contents(embed).fields.push(
                FieldContents { name: name@, value: value@, inline },
            ),
            ..embed_contents(embed)
        }),
{
    embed.field(name, value, inline)
}

/// `CreateEmbedFooter::new`: a footer with the text and without an icon.
#[verifier::external_body]
pub(crate) fn footer_with_text(text: &str) -> (r: CreateEmbedFooter)
    ensures
        footer_contents(r) == (FooterContents { text: text@, without_icon: true }),
{
    CreateEmbedFooter::new(text)
}

/// `CreateAllowedMentions::new`: nothing is allowed, and the reply mention is not settled.
pub assume_specification[ CreateAllowedMentions::new ]() -> (r: CreateAllowedMentions)
    ensures
        mention_contents(r) == (MentionContents {
            all_users: false,
            all_roles: false,
            everyone: false,
            replied_user: None,
            none_listed: true,
        }),
;

/// `CreateAllowedMentions::all_users`: settles whether all users may be mentioned.
pub assume_specification[ CreateAllowedMentions::all_users ](
    mentions: CreateAllowedMentions,
    allow: bool,
) -> (r: CreateAllowedMentions)
    ensures
        mention_contents(r) == (MentionContents { all_users: allow, ..mention_contents(mentions) }),
;

/// `CreateAllowedMentions::all_roles`: settles whether all roles may be mentioned.
pub assume_specification[ CreateAllowedMentions::all_roles ](
    mentions: CreateAllowedMentions,
    allow: bool,
) -> (r: CreateAllowedMentions)
    ensures
        mention_contents(r) == (MentionContents { all_roles: allow, ..mention_contents(mentions) }),
;

/// `CreateAllowedMentions::everyone`: settles whether everyone may be mentioned.
pub assume_specification[ CreateAllowedMentions::everyone ](
    mentions: CreateAllowedMentions,
    allow: bool,
) -> (r: CreateAllowedMentions)
    ensures
        mention_contents(r) == (MentionContents { everyone: allow, ..mention_contents(mentions) }),
;

/// `CreateAllowedMentions::replied_user`: settles whether the author of the message replied
/// to is mentioned.
pub assume_specification[ CreateAllowedMentions::replied_user ](
    mentions: CreateAllowedMentions,
    mention_user: bool,
) -> (r: CreateAllowedMentions)
    ensures
        mention_contents(r) == (MentionContents {
            replied_user: Some(mention_user),
            ..mention_contents(mentions)
        }),
;

} // verus!
