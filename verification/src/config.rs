//! Site-wide settings: name, titles, the copyright line and the licensing
//! statements of the About page.

use vstd::prelude::*;
use std::collections::HashMap;
use crate::text::{all_whitespace, is_whitespace, lemma_trim_ends, push_signed_decimal, push_str, trim, trim_str};

verus! {

/// Prose name of the code license, shown on the About page.
pub const CODE_LICENSE_NAME: &'static str = "GNU General Public License v3.0";

/// Canonical URL for the full text of the code license.
pub const CODE_LICENSE_URL: &'static str = "https://www.gnu.org/licenses/gpl-3.0.html";

/// Upstream source, used when `[license].source` is unset.
pub const DEFAULT_SOURCE_URL: &'static str = "https://github.com/Davey-Hughes/portfolio";

/// Elaboration rendered under the copyright line while the deployer has
/// supplied no terms of their own.
pub const DEFAULT_IMAGE_LICENSE_NOTE: &'static str = "These photographs are not licensed for reuse.";

/// Label for the footer link pointing at the About page's license section.
pub const DEFAULT_LICENSE_FOOTER_TEXT: &'static str = "License";

/// A section value: a plain string, or a link with display text and URL.
#[derive(Clone, Debug, PartialEq)]
pub enum SectionValue {
    /// A simple string value
    Simple(String),
    /// A structured link with display text and URL
    Link { display: String, url: String },
}

impl SectionValue {
    /// The display text of this value.
    pub fn display(&self) -> (r: &str)
        ensures
            r@ == (match self {
                SectionValue::Simple(s) => s@,
                SectionValue::Link { display, .. } => display@,
            }),
    {
        match self {
            SectionValue::Simple(s) => s.as_str(),
            SectionValue::Link { display, .. } => display.as_str(),
        }
    }

    /// The URL of a link, `None` for a plain value.
    pub fn url(&self) -> (r: Option<&str>)
        ensures
            match self {
                SectionValue::Simple(_) => r is None,
                SectionValue::Link { url, .. } => r matches Some(u) && u@ == url@,
            },
    {
        match self {
            SectionValue::Simple(_) => None,
            SectionValue::Link { url, .. } => Some(url.as_str()),
        }
    }

    /// Whether this is a plain value.
    pub fn is_simple(&self) -> (r: bool)
        ensures
            r == (self is Simple),
    {
        match self {
            SectionValue::Simple(_) => true,
            SectionValue::Link { .. } => false,
        }
    }
}

/// Licensing details for the About page's license section; every field is optional.
#[derive(Clone, Debug, PartialEq)]
pub struct LicenseConfig {
    /// Terms for the photographs; replaces the generated copyright line and
    /// suppresses the default note.
    pub images: Option<String>,
    /// Address for licensing enquiries; unset when empty.
    pub contact: Option<String>,
    /// Public URL of this site's source; the upstream default when unset or empty.
    pub source: Option<String>,
    /// Label of the footer link to the license section; an empty label hides it.
    pub footer_text: Option<String>,
}

impl Default for LicenseConfig {
    fn default() -> (r: Self)
        ensures
            r.images is None,
            r.contact is None,
            r.source is None,
            r.footer_text is None,
    {
        LicenseConfig { images: None, contact: None, source: None, footer_text: None }
    }
}

/// Configuration for the portfolio site.
#[derive(Clone, Debug)]
pub struct SiteConfig {
    pub site_name: String,
    pub site_tagline: String,
    pub site_title: Option<String>,
    pub site_copyright: Option<String>,
    /// Licensing terms shown on the About page.
    pub license: Option<LicenseConfig>,
    /// Gallery slugs in nav-bar order; unlisted galleries follow alphabetically.
    pub gallery_order: Vec<String>,
    pub sections: HashMap<String, SectionValue>,
}

/// `© {year} {name}. All rights reserved.`
pub open spec fn default_copyright(name: Seq<char>, year: int) -> Seq<char> {
    seq!['©', ' '] + crate::text::signed_decimal(year) + seq![' '] + name + seq![
        '.',
        ' ',
        'A',
        'l',
        'l',
        ' ',
        'r',
        'i',
        'g',
        'h',
        't',
        's',
        ' ',
        'r',
        'e',
        's',
        'e',
        'r',
        'v',
        'e',
        'd',
        '.',
    ]
}

/// The copyright line for `name` in `year`.
pub fn copyright_text(name: &str, year: i32) -> (r: String)
    ensures
        r@ == default_copyright(name@, year as int),
{
    let mut r = String::new();
    push_str(&mut r, "© ");
    push_signed_decimal(&mut r, year as i64);
    push_str(&mut r, " ");
    push_str(&mut r, name);
    push_str(&mut r, ". All rights reserved.");
    proof {
        reveal_strlit("© ");
        reveal_strlit(" ");
        reveal_strlit(". All rights reserved.");
        assert(r@ =~= default_copyright(name@, year as int));
    }
    r
}

/// The current calendar year on the server's local clock
/// (`chrono::Local::now().year()`). It depends on the clock, so nothing is
/// stated of it.
#[verifier::external_body]
fn current_year() -> i32 {
    chrono::Datelike::year(&chrono::Local::now())
}

/// The trimmed value of an optional setting, `None` when unset or blank.
pub open spec fn nonblank(v: Option<String>) -> Option<Seq<char>> {
    match v {
        Some(s) => if trim(s@).len() > 0 {
            Some(trim(s@))
        } else {
            None
        },
        None => None,
    }
}

impl SiteConfig {
    /// `[license].images`.
    pub open spec fn images_terms(self) -> Option<String> {
        match self.license {
            Some(l) => l.images,
            None => None,
        }
    }

    /// `[license].contact`.
    pub open spec fn contact_setting(self) -> Option<String> {
        match self.license {
            Some(l) => l.contact,
            None => None,
        }
    }

    /// `[license].source`.
    pub open spec fn source_setting(self) -> Option<String> {
        match self.license {
            Some(l) => l.source,
            None => None,
        }
    }

    /// `[license].footer_text`.
    pub open spec fn footer_setting(self) -> Option<String> {
        match self.license {
            Some(l) => l.footer_text,
            None => None,
        }
    }

    /// The copyright text, given the year that a generated line uses.
    pub open spec fn copyright_in(self, year: int) -> Seq<char> {
        match self.site_copyright {
            Some(c) => c@,
            None => default_copyright(self.site_name@, year),
        }
    }

    /// The photograph terms, given the year that a generated line uses.
    pub open spec fn image_license_in(self, year: int) -> Seq<char> {
        match self.images_terms() {
            Some(t) => t@,
            None => self.copyright_in(year),
        }
    }

    /// The page title: `site_title`, or `site_name` when it is not set.
    pub fn title(&self) -> (r: String)
        ensures
            r@ == (match self.site_title {
                Some(t) => t@,
                None => self.site_name@,
            }),
    {
        match &self.site_title {
            Some(t) => t.clone(),
            None => self.site_name.clone(),
        }
    }

    /// The copyright text for the given year: `site_copyright` when set, else
    /// `© {year} {site_name}. All rights reserved.`
    pub fn copyright_for_year(&self, year: i32) -> (r: String)
        ensures
            r@ == self.copyright_in(year as int),
    {
        match &self.site_copyright {
            Some(c) => c.clone(),
            None => copyright_text(self.site_name.as_str(), year),
        }
    }

    /// The copyright text: `site_copyright` when set, else generated from
    /// `site_name` and the current year.
    pub fn copyright(&self) -> (r: String)
        ensures
            self.site_copyright is Some ==> r@ == self.site_copyright->0@,
            exists|year: i32| r@ == self.copyright_in(year as int),
    {
        match &self.site_copyright {
            Some(c) => {
                let r = c.clone();
                assert(r@ == self.copyright_in(0i32 as int));
                r
            },
            None => {
                let year = current_year();
                let r = copyright_text(self.site_name.as_str(), year);
                assert(r@ == self.copyright_in(year as int));
                r
            },
        }
    }

    /// The photograph terms for the given year: `[license].images` when set,
    /// else the copyright text of that year.
    pub fn image_license_for_year(&self, year: i32) -> (r: String)
        ensures
            r@ == self.image_license_in(year as int),
    {
        match &self.license {
            Some(l) => match &l.images {
                Some(t) => t.clone(),
                None => self.copyright_for_year(year),
            },
            None => self.copyright_for_year(year),
        }
    }

    /// The photograph terms: `[license].images` when set, else the copyright text.
    pub fn image_license(&self) -> (r: String)
        ensures
            self.images_terms() is Some ==> r@ == self.images_terms()->0@,
            exists|year: i32| r@ == self.image_license_in(year as int),
    {
        let r = match &self.license {
            Some(l) => match &l.images {
                Some(t) => t.clone(),
                None => self.copyright(),
            },
            None => self.copyright(),
        };
        proof {
            if self.images_terms() is Some {
                assert(r@ == self.image_license_in(0i32 as int));
            } else {
                let y = choose|year: i32| r@ == self.copyright_in(year as int);
                assert(r@ == self.image_license_in(y as int));
            }
        }
        r
    }

    /// The "not licensed for reuse" note, shown only while `[license].images`
    /// is unset.
    pub fn image_license_note(&self) -> (r: Option<&'static str>)
        ensures
            r == (if self.images_terms() is None {
                Some(DEFAULT_IMAGE_LICENSE_NOTE)
            } else {
                None
            }),
    {
        match &self.license {
            Some(l) => match &l.images {
                Some(_) => None,
                None => Some(DEFAULT_IMAGE_LICENSE_NOTE),
            },
            None => Some(DEFAULT_IMAGE_LICENSE_NOTE),
        }
    }

    /// The address for licensing enquiries, trimmed; `None` when unset or blank.
    pub fn license_contact(&self) -> (r: Option<&str>)
        ensures
            match nonblank(self.contact_setting()) {
                Some(t) => r matches Some(c) && c@ == t,
                None => r is None,
            },
            r matches Some(c) ==> c@.len() > 0 && !is_whitespace(c@[0]) && !is_whitespace(
                c@.last(),
            ),
    {
        match &self.license {
            Some(l) => match &l.contact {
                Some(c) => {
                    let t = trim_str(c.as_str());
                    proof {
                        lemma_trim_ends(c@);
                    }
                    if t.unicode_len() == 0 {
                        None
                    } else {
                        Some(t)
                    }
                },
                None => None,
            },
            None => None,
        }
    }

    /// The public URL of this site's source: `[license].source` trimmed, or
    /// the upstream repository when that is unset or blank.
    pub fn source_url(&self) -> (r: &str)
        ensures
            r@ == (match nonblank(self.source_setting()) {
                Some(t) => t,
                None => DEFAULT_SOURCE_URL@,
            }),
    {
        match &self.license {
            Some(l) => match &l.source {
                Some(s) => {
                    let t = trim_str(s.as_str());
                    if t.unicode_len() == 0 {
                        DEFAULT_SOURCE_URL
                    } else {
                        t
                    }
                },
                None => DEFAULT_SOURCE_URL,
            },
            None => DEFAULT_SOURCE_URL,
        }
    }

    /// The label of the footer link to the license section: the default when
    /// unset, `None` (no link) when blank, the trimmed label otherwise.
    pub fn license_footer_text(&self) -> (r: Option<&str>)
        ensures
            match self.footer_setting() {
                None => r matches Some(t) && t@ == DEFAULT_LICENSE_FOOTER_TEXT@,
                Some(f) => match nonblank(Some(f)) {
                    Some(t) => r matches Some(x) && x@ == t,
                    None => r is None,
                },
            },
    {
        match &self.license {
            Some(l) => match &l.footer_text {
                Some(f) => {
                    let t = trim_str(f.as_str());
                    if t.unicode_len() == 0 {
                        None
                    } else {
                        Some(t)
                    }
                },
                None => Some(DEFAULT_LICENSE_FOOTER_TEXT),
            },
            None => Some(DEFAULT_LICENSE_FOOTER_TEXT),
        }
    }
}

/// A blank setting (empty or whitespace only) counts as unset: the contact
/// sentence disappears and the source link falls back to upstream.
pub proof fn lemma_blank_is_unset(s: String)
    requires
        all_whitespace(s@),
    ensures
        nonblank(Some(s)) is None,
{
    lemma_trim_ends(s@);
}

/// The photograph terms and the copyright line are one claim: with no
/// `[license].images`, the terms are the copyright text of the same year.
pub proof fn lemma_image_license_defaults_to_copyright(config: SiteConfig, year: int)
    requires
        config.images_terms() is None,
    ensures
        config.image_license_in(year) == config.copyright_in(year),
{
}

impl Default for SiteConfig {
    fn default() -> (r: Self)
        ensures
            r.site_name@ == "Your Name"@,
            r.site_tagline@ == "Photography"@,
            r.site_title is None,
            r.site_copyright is None,
            r.license is None,
            r.gallery_order@.len() == 0,
            r.sections@ == Map::<String, SectionValue>::empty(),
    {
        SiteConfig {
            site_name: String::from_str("Your Name"),
            site_tagline: String::from_str("Photography"),
            site_title: None,
            site_copyright: None,
            license: None,
            gallery_order: Vec::new(),
            sections: HashMap::new(),
        }
    }
}

/// The site configuration when no configuration file is read: the defaults.
pub fn load_config() -> (r: SiteConfig)
    ensures
        r.site_name@ == "Your Name"@,
        r.site_tagline@ == "Photography"@,
        r.site_title is None,
        r.site_copyright is None,
        r.license is None,
        r.gallery_order@.len() == 0,
        r.sections@ == Map::<String, SectionValue>::empty(),
{
    SiteConfig::default()
}

/// The configuration read from the configuration file, or the defaults when
/// the file is missing or does not parse.
pub fn load_config_from(parsed: Option<SiteConfig>) -> (r: SiteConfig)
    ensures
        parsed is Some ==> r == parsed->0,
        parsed is None ==> r.site_name@ == "Your Name"@ && r.site_tagline@ == "Photography"@
            && r.site_title is None && r.site_copyright is None && r.license is None
            && r.gallery_order@.len() == 0 && r.sections@ == Map::<String, SectionValue>::empty(),
{
    match parsed {
        Some(c) => c,
        None => SiteConfig::default(),
    }
}

} // verus!
