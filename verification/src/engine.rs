//! The engine facade: diffing, compact encoding, the complete outbound
//! envelope, event parsing with validation, and the component cache, glued
//! together behind one object.
use vstd::prelude::*;
use vstd::string::*;
use crate::cache::{set_html_effect, ComponentCache};
use crate::differ::{diff_spec, HtmlDiffer};
use crate::parser::{parse_outcome, EventParser};
use crate::strutil::valid_event_name;
use crate::types::{CacheStats, DomPatch, LiveTSError, ParsedEvent, PatchModel};

verus! {

/// The quoted, comma-separated list of the compact patch strings.
pub open spec fn joined_patches(ps: Seq<Seq<char>>) -> Seq<char>
    decreases ps.len(),
{
    if ps.len() == 0 {
        Seq::empty()
    } else if ps.len() == 1 {
        "\""@ + ps[0] + "\""@
    } else {
        joined_patches(ps.drop_last()) + ","@ + "\""@ + ps.last() + "\""@
    }
}

/// The first eight characters of the component id.
pub open spec fn short_id(s: Seq<char>) -> Seq<char> {
    if s.len() <= 8 {
        s
    } else {
        s.subrange(0, 8)
    }
}

/// The outbound envelope carrying the compact patches for a component.
pub open spec fn envelope_spec(component_id: Seq<char>, ps: Seq<Seq<char>>) -> Seq<char> {
    "{\"t\":\"p\",\"c\":\""@ + short_id(component_id) + "\",\"d\":["@ + joined_patches(ps)
        + "]}"@
}

/// The compact strings of the patches a diff yields.
pub open spec fn compact_of_diff(old_html: Seq<char>, new_html: Seq<char>) -> Seq<Seq<char>> {
    diff_spec(old_html, new_html).map_values(|p: PatchModel| HtmlDiffer::patch_compact_spec(p))
}

/// The main engine coordinating diffing, parsing and caching.
pub struct LiveTSEngine {
    pub html_differ: HtmlDiffer,
    pub event_parser: EventParser,
    pub component_cache: ComponentCache,
}

impl LiveTSEngine {
    /// A fresh engine with an empty cache bounded at one thousand entries.
    pub fn new() -> (r: Self)
        ensures
            r.component_cache.wf(),
            r.component_cache.contents() == Map::<Seq<char>, (Seq<char>, u64)>::empty(),
            r.component_cache.max() == 1000,
    {
        LiveTSEngine {
            html_differ: HtmlDiffer::new(),
            event_parser: EventParser::new(),
            component_cache: ComponentCache::new(1000),
        }
    }

    /// Diffs two renderings of a component into the ordered patch list.
    pub fn render_component(
        &self,
        _component_id: String,
        old_html: String,
        new_html: String,
    ) -> (r: Result<Vec<DomPatch>, LiveTSError>)
        ensures
            match r {
                Ok(ps) => ps@.map_values(|p: DomPatch| p@) == diff_spec(old_html@, new_html@),
                Err(_) => false,
            },
    {
        self.html_differ.diff(old_html.as_str(), new_html.as_str())
    }

    /// Diffs two renderings into compact patch strings.
    pub fn render_component_compact(
        &self,
        _component_id: String,
        old_html: String,
        new_html: String,
    ) -> (r: Result<Vec<String>, LiveTSError>)
        ensures
            match r {
                Ok(ps) => ps@.map_values(|s: String| s@) == compact_of_diff(old_html@, new_html@),
                Err(_) => false,
            },
    {
        let patches = match self.html_differ.diff(old_html.as_str(), new_html.as_str()) {
            Ok(ps) => ps,
            Err(e) => {
                return Err(e);
            },
        };
        let compact = self.html_differ.patches_to_compact(patches);
        proof {
            assert(compact@.map_values(|s: String| s@) =~~= compact_of_diff(
                old_html@,
                new_html@,
            ));
        }
        Ok(compact)
    }

    /// Diffs two renderings into the complete outbound envelope:
    /// `{"t":"p","c":"<short id>","d":[...]}` with the compact patches.
    pub fn render_component_message(
        &self,
        component_id: String,
        old_html: String,
        new_html: String,
    ) -> (r: Result<String, LiveTSError>)
        ensures
            match r {
                Ok(msg) => msg@ == envelope_spec(
                    component_id@,
                    compact_of_diff(old_html@, new_html@),
                ),
                Err(_) => false,
            },
    {
        let compact = match self.render_component_compact(
            "".to_owned(),
            old_html,
            new_html,
        ) {
            Ok(ps) => ps,
            Err(e) => {
                return Err(e);
            },
        };
        let ghost ps = compact@.map_values(|s: String| s@);
        let mut out = "{\"t\":\"p\",\"c\":\"".to_owned();
        let idn = component_id.as_str().unicode_len();
        let short = if idn <= 8 {
            component_id.as_str()
        } else {
            component_id.as_str().substring_char(0, 8)
        };
        out.append(short);
        out.append("\",\"d\":[");
        let mut i: usize = 0;
        let mut body = String::new();
        proof {
            assert(joined_patches(ps.subrange(0, 0)) =~= Seq::<char>::empty());
            assert(body@ =~= joined_patches(ps.subrange(0, 0)));
        }
        while i < compact.len()
            invariant
                ps == compact@.map_values(|s: String| s@),
                i <= compact@.len(),
                body@ == joined_patches(ps.subrange(0, i as int)),
            decreases compact@.len() - i,
        {
            proof {
                assert(ps.subrange(0, i + 1).drop_last() =~= ps.subrange(0, i as int));
                assert(ps.subrange(0, i + 1).last() == ps[i as int]);
                assert(compact@[i as int]@ == ps[i as int]);
                if i == 0 {
                    assert(ps.subrange(0, 1)[0] == ps[0]);
                }
            }
            if i > 0 {
                body.append(",");
            }
            body.append("\"");
            body.append(compact[i].as_str());
            body.append("\"");
            proof {
                assert(body@ =~= joined_patches(ps.subrange(0, i + 1)));
            }
            i = i + 1;
        }
        proof {
            assert(ps.subrange(0, ps.len() as int) =~= ps);
        }
        out.append(body.as_str());
        out.append("]}");
        proof {
            assert(out@ =~= envelope_spec(component_id@, ps));
        }
        Ok(out)
    }

    /// Parses one raw frame and validates the event it carries.
    pub fn parse_event_message(&self, raw_message: &str) -> (r: Result<ParsedEvent, LiveTSError>)
        ensures
            match r {
                Ok(pe) => parse_outcome(raw_message@) == Some(pe@) && pe.component_id@.len() >= 8
                    && pe.event_name@.len() > 0 && valid_event_name(pe.event_name@),
                Err(e) => e is InvalidInput && (match parse_outcome(raw_message@) {
                    Some(m) => m.component_id.len() < 8 || m.event_name.len() == 0
                        || !valid_event_name(m.event_name),
                    None => true,
                }),
            },
    {
        let parsed = match self.event_parser.parse_message(raw_message) {
            Ok(pe) => pe,
            Err(e) => {
                return Err(e);
            },
        };
        match self.event_parser.validate_event(&parsed) {
            Ok(_) => Ok(parsed),
            Err(e) => Err(e),
        }
    }

    /// Whether the frame is the literal heartbeat `"p"`.
    pub fn is_ping_message(&self, raw_message: &str) -> (r: bool)
        ensures
            r == (raw_message@ == "\"p\""@),
    {
        crate::strutil::str_eq(raw_message, "\"p\"")
    }

    /// Parses one raw frame and pairs it with the component's cached HTML
    /// (the empty string when none is cached), for the host's render step.
    pub fn parse_event_and_get_cache(&self, raw_message: &str) -> (r: Result<
        (ParsedEvent, String),
        LiveTSError,
    >)
        ensures
            match r {
                Ok(pair) => parse_outcome(raw_message@) == Some(pair.0@) && (
                if self.component_cache.contents().contains_key(pair.0.component_id@) {
                    pair.1@ == self.component_cache.contents()[pair.0.component_id@].0
                } else {
                    pair.1@ == Seq::<char>::empty()
                }),
                Err(e) => e is InvalidInput && parse_outcome(raw_message@) is None,
            },
    {
        let parsed = match self.event_parser.parse_message(raw_message) {
            Ok(pe) => pe,
            Err(e) => {
                return Err(e);
            },
        };
        let old_html = match self.component_cache.get_html(parsed.component_id.as_str()) {
            Some(h) => h,
            None => String::new(),
        };
        Ok((parsed, old_html))
    }

    /// Stores the new rendering in the cache and builds the outbound
    /// envelope for the change.
    pub fn process_response_and_generate_message(
        &mut self,
        component_id: String,
        old_html: String,
        new_html: String,
    ) -> (r: Result<String, LiveTSError>)
        requires
            old(self).component_cache.wf(),
        ensures
            final(self).component_cache.wf(),
            final(self).component_cache.max() == old(self).component_cache.max(),
            exists|ts: u64|
                set_html_effect(
                    old(self).component_cache.contents(),
                    old(self).component_cache.max(),
                    final(self).component_cache.contents(),
                    component_id@,
                    new_html@,
                    ts,
                ),
            match r {
                Ok(msg) => msg@ == envelope_spec(
                    component_id@,
                    compact_of_diff(old_html@, new_html@),
                ),
                Err(_) => false,
            },
    {
        self.component_cache.set_html(component_id.as_str(), new_html.clone());
        self.render_component_message(component_id, old_html, new_html)
    }

    /// Stores a component's rendering in the cache.
    pub fn cache_component_html(&mut self, component_id: String, html: String)
        requires
            old(self).component_cache.wf(),
        ensures
            final(self).component_cache.wf(),
            final(self).component_cache.max() == old(self).component_cache.max(),
            exists|ts: u64|
                set_html_effect(
                    old(self).component_cache.contents(),
                    old(self).component_cache.max(),
                    final(self).component_cache.contents(),
                    component_id@,
                    html@,
                    ts,
                ),
    {
        self.component_cache.set_html(component_id.as_str(), html);
    }

    /// The cached rendering of a component.
    pub fn get_cached_html(&self, component_id: String) -> (r: Option<String>)
        ensures
            match r {
                Some(h) => self.component_cache.contents().contains_key(component_id@) && h@
                    == self.component_cache.contents()[component_id@].0,
                None => !self.component_cache.contents().contains_key(component_id@),
            },
    {
        self.component_cache.get_html(component_id.as_str())
    }

    /// Drops a component's cache entry; reports whether one was there.
    pub fn remove_component_cache(&mut self, component_id: String) -> (r: bool)
        ensures
            final(self).component_cache.max() == old(self).component_cache.max(),
            final(self).component_cache.contents() == old(
                self,
            ).component_cache.contents().remove(component_id@),
            r == old(self).component_cache.contents().contains_key(component_id@),
    {
        self.component_cache.remove_component(component_id.as_str()).is_some()
    }

    /// The cache's size statistics.
    pub fn get_cache_stats(&self) -> (r: CacheStats)
        ensures
            r.size == self.component_cache.contents().dom().len(),
            r.max_size as int == self.component_cache.max(),
    {
        self.component_cache.stats()
    }
}

impl Default for LiveTSEngine {
    fn default() -> (r: Self)
        ensures
            r.component_cache.wf(),
    {
        LiveTSEngine::new()
    }
}

} // verus!

