//! Bots, which answer the user in a chat.

use std::collections::HashMap;

use uuid::Uuid;
use vstd::prelude::*;

verus! {

/// A language that a bot speaks.
#[derive(Debug, Clone, Copy, PartialEq, Eq, Structural)]
pub enum Lang {
    En,
    ZhCN,
}

/// Bot is Polestar basic component, user need talk to bot to get AI response.
#[derive(Debug)]
pub struct Bot {
    // A unique id for bot
    id: Uuid,
    // A name for bot
    name: String,
    // This bot support languages version
    lang: Vec<Lang>,
    // A description for bot, it's optional
    desc: Option<String>,
    // A category for bot, it's optional
    cat: Option<String>,
    // A list of tags for bot, it can be empty list to indicate no tags
    tags: Vec<String>,
    // API url for bot's AI service
    url: String,
    // API url header for bot's AI service
    headers: HashMap<String, String>,
    // The parameters that the bot's AI service model needs
    params: serde_json::Value,
}

impl Bot {
    pub closed spec fn spec_id(&self) -> Uuid {
        self.id
    }

    pub closed spec fn spec_name(&self) -> Seq<char> {
        self.name@
    }

    pub closed spec fn spec_lang(&self) -> Seq<Lang> {
        self.lang@
    }

    pub closed spec fn spec_desc(&self) -> Option<Seq<char>> {
        match self.desc {
            Some(d) => Some(d@),
            None => None,
        }
    }

    pub closed spec fn spec_cat(&self) -> Option<Seq<char>> {
        match self.cat {
            Some(c) => Some(c@),
            None => None,
        }
    }

    pub closed spec fn spec_tags(&self) -> Seq<String> {
        self.tags@
    }

    pub closed spec fn spec_url(&self) -> Seq<char> {
        self.url@
    }

    pub closed spec fn spec_headers(&self) -> HashMap<String, String> {
        self.headers
    }

    pub closed spec fn spec_params(&self) -> serde_json::Value {
        self.params
    }

    /// A bot from all of its parts.
    pub fn new(
        id: Uuid,
        name: String,
        lang: Vec<Lang>,
        desc: Option<String>,
        cat: Option<String>,
        tags: Vec<String>,
        url: String,
        headers: HashMap<String, String>,
        params: serde_json::Value,
    ) -> (r: Self)
        ensures
            r.spec_id() == id,
            r.spec_name() == name@,
            r.spec_lang() == lang@,
            r.spec_desc() == (match desc {
                Some(d) => Some(d@),
                None => None,
            }),
            r.spec_cat() == (match cat {
                Some(c) => Some(c@),
                None => None,
            }),
            r.spec_tags() == tags@,
            r.spec_url() == url@,
            r.spec_headers() == headers,
            r.spec_params() == params,
    {
        Bot { id, name, lang, desc, cat, tags, url, headers, params }
    }

    pub fn id(&self) -> (r: &Uuid)
        ensures
            *r == self.spec_id(),
    {
        &self.id
    }

    pub fn name(&self) -> (r: &str)
        ensures
            r@ == self.spec_name(),
    {
        self.name.as_str()
    }

    pub fn desc(&self) -> (r: Option<&str>)
        ensures
            r matches Some(d) ==> self.spec_desc() == Some(d@),
            r is None ==> self.spec_desc() is None,
    {
        match &self.desc {
            Some(d) => Some(d.as_str()),
            None => None,
        }
    }

    pub fn cat(&self) -> (r: Option<&str>)
        ensures
            r matches Some(c) ==> self.spec_cat() == Some(c@),
            r is None ==> self.spec_cat() is None,
    {
        match &self.cat {
            Some(c) => Some(c.as_str()),
            None => None,
        }
    }

    pub fn tags(&self) -> (r: &[String])
        ensures
            r@ == self.spec_tags(),
    {
        self.tags.as_slice()
    }

    pub fn headers(&self) -> (r: &HashMap<String, String>)
        ensures
            *r == self.spec_headers(),
    {
        &self.headers
    }

    pub fn url(&self) -> (r: &str)
        ensures
            r@ == self.spec_url(),
    {
        self.url.as_str()
    }

    pub fn params(&self) -> (r: &serde_json::Value)
        ensures
            *r == self.spec_params(),
    {
        &self.params
    }

    pub fn lang(&self) -> (r: &[Lang])
        ensures
            r@ == self.spec_lang(),
    {
        self.lang.as_slice()
    }
}

} // verus!
