//! Job metadata — the things a show file does not know.
//!
//! An engineer's paperwork needs the event, the act, the venue, who mixed it
//! and how to reach them. None of that is in a console show file, so this is a
//! separate input, supplied by the user, and deliberately not part of
//! [`Show`](crate::model::Show): that model means "what the file says".
//!
//! A few fields overlap with things a show file does carry (console,
//! firmware). Those are overrides: empty means "use what was parsed".

use vstd::prelude::*;

use crate::lex::{lower_vec, split_chars, split_spec, views};
use crate::model::show::opt_text;
use crate::text::{
    chars_of, eq_chars, eq_str, find_char, first_match, index_of_char, lemma_first_match_at,
    lemma_first_match_none, lower, lower_seq, slice_vec, string_of, trim, trim_vec,
};

verus! {

/// An image supplied for the report header.
#[derive(Debug, Clone, PartialEq)]
pub struct Logo {
    /// Encoded image bytes, as supplied.
    pub bytes: Vec<u8>,
}

impl Logo {
    pub fn new(bytes: Vec<u8>) -> (r: Logo)
        ensures
            r.bytes@ == bytes@,
    {
        Logo { bytes }
    }
}

/// Everything the user tells us about the job. Every field is optional.
#[derive(Debug, Clone, PartialEq)]
pub struct JobInfo {
    /// Event or production name — the headline on the cover.
    pub event: Option<String>,
    /// Date, free text ("12–14 Sept", "get-in Thu").
    pub date: Option<String>,
    /// Artist, act or client.
    pub artist: Option<String>,
    pub venue: Option<String>,
    pub production_company: Option<String>,
    pub engineer: Option<String>,
    /// Phone, email, or both — free text.
    pub engineer_contact: Option<String>,
    /// Overrides the console named in the show file.
    pub console: Option<String>,
    /// Overrides the firmware/format version from the show file.
    pub firmware: Option<String>,
    /// Free note printed under the header grid.
    pub notes: Option<String>,
    /// Extra label/value pairs, shown after the known fields.
    pub custom: Vec<(String, String)>,
    pub logo: Option<Logo>,
}

/// A [`JobInfo`] with its texts as character sequences.
pub struct JobInfoView {
    pub event: Option<Seq<char>>,
    pub date: Option<Seq<char>>,
    pub artist: Option<Seq<char>>,
    pub venue: Option<Seq<char>>,
    pub production_company: Option<Seq<char>>,
    pub engineer: Option<Seq<char>>,
    pub engineer_contact: Option<Seq<char>>,
    pub console: Option<Seq<char>>,
    pub firmware: Option<Seq<char>>,
    pub notes: Option<Seq<char>>,
    pub custom: Seq<(Seq<char>, Seq<char>)>,
    pub logo: Option<Seq<u8>>,
}

pub open spec fn pairs_view(v: Seq<(String, String)>) -> Seq<(Seq<char>, Seq<char>)> {
    v.map_values(|p: (String, String)| (p.0@, p.1@))
}

impl View for JobInfo {
    type V = JobInfoView;

    open spec fn view(&self) -> JobInfoView {
        JobInfoView {
            event: opt_text(self.event),
            date: opt_text(self.date),
            artist: opt_text(self.artist),
            venue: opt_text(self.venue),
            production_company: opt_text(self.production_company),
            engineer: opt_text(self.engineer),
            engineer_contact: opt_text(self.engineer_contact),
            console: opt_text(self.console),
            firmware: opt_text(self.firmware),
            notes: opt_text(self.notes),
            custom: pairs_view(self.custom@),
            logo: match self.logo {
                Some(l) => Some(l.bytes@),
                None => None,
            },
        }
    }
}

/// The job nobody has described yet.
pub open spec fn empty_job() -> JobInfoView {
    JobInfoView {
        event: None,
        date: None,
        artist: None,
        venue: None,
        production_company: None,
        engineer: None,
        engineer_contact: None,
        console: None,
        firmware: None,
        notes: None,
        custom: Seq::empty(),
        logo: None,
    }
}

impl Default for JobInfo {
    fn default() -> (r: JobInfo)
        ensures
            r@ == empty_job(),
    {
        let r = JobInfo {
            event: None,
            date: None,
            artist: None,
            venue: None,
            production_company: None,
            engineer: None,
            engineer_contact: None,
            console: None,
            firmware: None,
            notes: None,
            custom: Vec::new(),
            logo: None,
        };
        proof {
            assert(pairs_view(r.custom@) =~= Seq::<(Seq<char>, Seq<char>)>::empty());
        }
        r
    }
}

/// A trimmed value, or nothing when only blanks were given.
pub open spec fn clean_spec(v: Seq<char>) -> Option<Seq<char>> {
    if trim(v).len() == 0 {
        None
    } else {
        Some(trim(v))
    }
}

fn clean(v: &[char]) -> (r: Option<String>)
    ensures
        opt_text(r) == clean_spec(v@),
{
    let t = trim_vec(v);
    if t.len() == 0 {
        None
    } else {
        Some(string_of(t.as_slice()))
    }
}

/// Which field a sidecar key sets.
pub enum JobField {
    Event,
    Date,
    Artist,
    Venue,
    Production,
    Engineer,
    Contact,
    Console,
    Firmware,
    Notes,
    Logo,
    Custom,
}

/// A key's spelling reduced to what is compared: trimmed, ASCII lower case,
/// with spaces and hyphens read as underscores.
pub open spec fn key_char(c: char) -> char {
    if c == ' ' || c == '-' {
        '_'
    } else {
        lower(c)
    }
}

pub open spec fn norm_key(k: Seq<char>) -> Seq<char> {
    trim(k).map_values(|c: char| key_char(c))
}

/// The field a normalised key names; anything unknown is a custom field.
pub open spec fn field_for(n: Seq<char>) -> JobField {
    if n == "event"@ || n == "show"@ || n == "production_name"@ {
        JobField::Event
    } else if n == "date"@ || n == "dates"@ {
        JobField::Date
    } else if n == "artist"@ || n == "act"@ || n == "client"@ || n == "band"@ {
        JobField::Artist
    } else if n == "venue"@ {
        JobField::Venue
    } else if n == "production"@ || n == "production_company"@ || n == "company"@ {
        JobField::Production
    } else if n == "engineer"@ || n == "sound_engineer"@ || n == "foh"@ || n == "operator"@ {
        JobField::Engineer
    } else if n == "contact"@ || n == "engineer_contact"@ || n == "phone"@ || n == "email"@ {
        JobField::Contact
    } else if n == "console"@ || n == "desk"@ {
        JobField::Console
    } else if n == "firmware"@ || n == "firmware_version"@ || n == "version"@ {
        JobField::Firmware
    } else if n == "notes"@ || n == "note"@ {
        JobField::Notes
    } else if n == "logo"@ {
        JobField::Logo
    } else {
        JobField::Custom
    }
}

/// A custom field set: an existing label keeps its place and takes the new
/// value; a new label goes at the end.
pub open spec fn custom_set(
    cs: Seq<(Seq<char>, Seq<char>)>,
    label: Seq<char>,
    v: Seq<char>,
) -> Seq<(Seq<char>, Seq<char>)> {
    match first_match(cs, |p: (Seq<char>, Seq<char>)| p.0 == label) {
        Some(i) => cs.update(i, (label, v)),
        None => cs.push((label, v)),
    }
}

/// What `set` does: the job afterwards, and whether the key was usable.
pub open spec fn set_spec(j: JobInfoView, key: Seq<char>, value: Seq<char>) -> (JobInfoView, bool) {
    let v = clean_spec(value);
    match field_for(norm_key(key)) {
        JobField::Event => (JobInfoView { event: v, ..j }, true),
        JobField::Date => (JobInfoView { date: v, ..j }, true),
        JobField::Artist => (JobInfoView { artist: v, ..j }, true),
        JobField::Venue => (JobInfoView { venue: v, ..j }, true),
        JobField::Production => (JobInfoView { production_company: v, ..j }, true),
        JobField::Engineer => (JobInfoView { engineer: v, ..j }, true),
        JobField::Contact => (JobInfoView { engineer_contact: v, ..j }, true),
        JobField::Console => (JobInfoView { console: v, ..j }, true),
        JobField::Firmware => (JobInfoView { firmware: v, ..j }, true),
        JobField::Notes => (JobInfoView { notes: v, ..j }, true),
        JobField::Logo => (j, false),
        JobField::Custom => match v {
            Some(t) => (JobInfoView { custom: custom_set(j.custom, trim(key), t), ..j }, true),
            None => (j, true),
        },
    }
}

/// A label/value row when the value is there.
pub open spec fn opt_row(label: Seq<char>, v: Option<Seq<char>>) -> Seq<(Seq<char>, Seq<char>)> {
    match v {
        Some(t) => seq![(label, t)],
        None => Seq::empty(),
    }
}

/// The known rows that are set, in print order.
pub open spec fn fields_spec(j: JobInfoView) -> Seq<(Seq<char>, Seq<char>)> {
    opt_row("Date"@, j.date) + opt_row("Artist / act"@, j.artist) + opt_row("Venue"@, j.venue)
        + opt_row("Production"@, j.production_company) + opt_row("Engineer"@, j.engineer)
        + opt_row("Contact"@, j.engineer_contact)
}

pub open spec fn opt_str(o: Option<&str>) -> Option<Seq<char>> {
    match o {
        Some(s) => Some(s@),
        None => None,
    }
}

pub open spec fn rows_view(v: Seq<(&str, &str)>) -> Seq<(Seq<char>, Seq<char>)> {
    v.map_values(|p: (&str, &str)| (p.0@, p.1@))
}

/// One line of a sidecar, applied to what was read so far.
pub open spec fn sidecar_step(st: (JobInfoView, Option<Seq<char>>), line: Seq<char>) -> (
    JobInfoView,
    Option<Seq<char>>,
) {
    let t = trim(line);
    if t.len() == 0 || t[0] == '#' {
        st
    } else {
        match index_of_char(t, ':') {
            None => st,
            Some(i) => {
                let key = t.take(i);
                let value = t.skip(i + 1);
                if lower_seq(trim(key)) == "logo"@ {
                    (st.0, clean_spec(value))
                } else {
                    (set_spec(st.0, key, value).0, st.1)
                }
            },
        }
    }
}

pub open spec fn sidecar_fold(lines: Seq<Seq<char>>, n: nat) -> (JobInfoView, Option<Seq<char>>)
    decreases n,
{
    if n == 0 || n > lines.len() {
        (empty_job(), None)
    } else {
        sidecar_step(sidecar_fold(lines, (n - 1) as nat), lines[n - 1])
    }
}

/// A sidecar read line by line.
pub open spec fn parse_sidecar_spec(text: Seq<char>) -> (JobInfoView, Option<Seq<char>>) {
    let lines = split_spec(text, '\n');
    sidecar_fold(lines, lines.len())
}

fn norm_key_vec(k: &[char]) -> (r: Vec<char>)
    ensures
        r@ == norm_key(k@),
{
    let t = lower_vec(trim_vec(k).as_slice());
    let ghost tt = trim(k@);
    let mut r: Vec<char> = Vec::new();
    let mut i: usize = 0;
    while i < t.len()
        invariant
            i <= t@.len(),
            t@ == lower_seq(tt),
            tt == trim(k@),
            r@ == tt.take(i as int).map_values(|c: char| key_char(c)),
        decreases t@.len() - i,
    {
        let c = t[i];
        if c == ' ' || c == '-' {
            r.push('_');
        } else {
            r.push(c);
        }
        i = i + 1;
        proof {
            assert(tt.take(i as int).drop_last() =~= tt.take(i - 1));
            assert(r@ =~= tt.take(i as int).map_values(|c: char| key_char(c)));
        }
    }
    proof {
        assert(tt.take(i as int) =~= tt);
    }
    r
}

fn field_for_exec(n: &[char]) -> (r: JobField)
    ensures
        r == field_for(n@),
{
    if eq_str(n, "event") || eq_str(n, "show") || eq_str(n, "production_name") {
        JobField::Event
    } else if eq_str(n, "date") || eq_str(n, "dates") {
        JobField::Date
    } else if eq_str(n, "artist") || eq_str(n, "act") || eq_str(n, "client") || eq_str(n, "band") {
        JobField::Artist
    } else if eq_str(n, "venue") {
        JobField::Venue
    } else if eq_str(n, "production") || eq_str(n, "production_company") || eq_str(n, "company") {
        JobField::Production
    } else if eq_str(n, "engineer") || eq_str(n, "sound_engineer") || eq_str(n, "foh") || eq_str(
        n,
        "operator",
    ) {
        JobField::Engineer
    } else if eq_str(n, "contact") || eq_str(n, "engineer_contact") || eq_str(n, "phone")
        || eq_str(n, "email") {
        JobField::Contact
    } else if eq_str(n, "console") || eq_str(n, "desk") {
        JobField::Console
    } else if eq_str(n, "firmware") || eq_str(n, "firmware_version") || eq_str(n, "version") {
        JobField::Firmware
    } else if eq_str(n, "notes") || eq_str(n, "note") {
        JobField::Notes
    } else if eq_str(n, "logo") {
        JobField::Logo
    } else {
        JobField::Custom
    }
}

impl JobInfo {
    /// Whether nothing at all has been supplied.
    pub fn is_empty(&self) -> (r: bool)
        ensures
            r == (self@ == empty_job()),
    {
        let r = self.event.is_none() && self.date.is_none() && self.artist.is_none()
            && self.venue.is_none() && self.production_company.is_none() && self.engineer.is_none()
            && self.engineer_contact.is_none() && self.console.is_none() && self.firmware.is_none()
            && self.notes.is_none() && self.custom.len() == 0 && self.logo.is_none();
        proof {
            if r {
                assert(self@.custom =~= Seq::<(Seq<char>, Seq<char>)>::empty());
            }
            if self@ == empty_job() {
                assert(self@.custom.len() == 0);
            }
        }
        r
    }

    /// The console to print: the user's override, else what was parsed.
    pub fn console_or<'a>(&'a self, parsed: &'a str) -> (r: &'a str)
        ensures
            r@ == match self@.console {
                Some(c) => c,
                None => parsed@,
            },
    {
        match &self.console {
            Some(c) => c.as_str(),
            None => parsed,
        }
    }

    /// The firmware/version to print: the user's override, else what was parsed.
    pub fn firmware_or<'a>(&'a self, parsed: Option<&'a str>) -> (r: Option<&'a str>)
        ensures
            opt_str(r) == match self@.firmware {
                Some(f) => Some(f),
                None => opt_str(parsed),
            },
    {
        match &self.firmware {
            Some(f) => Some(f.as_str()),
            None => parsed,
        }
    }

    /// Known label/value pairs that are set, in print order. Console and
    /// firmware are not here: they fall back to the parsed show.
    pub fn fields(&self) -> (r: Vec<(&'static str, &str)>)
        ensures
            rows_view(r@) == fields_spec(self@),
    {
        let mut r: Vec<(&'static str, &str)> = Vec::new();
        if let Some(v) = &self.date {
            r.push(("Date", v.as_str()));
        }
        let ghost r1 = rows_view(r@);
        if let Some(v) = &self.artist {
            r.push(("Artist / act", v.as_str()));
        }
        let ghost r2 = rows_view(r@);
        if let Some(v) = &self.venue {
            r.push(("Venue", v.as_str()));
        }
        let ghost r3 = rows_view(r@);
        if let Some(v) = &self.production_company {
            r.push(("Production", v.as_str()));
        }
        let ghost r4 = rows_view(r@);
        if let Some(v) = &self.engineer {
            r.push(("Engineer", v.as_str()));
        }
        let ghost r5 = rows_view(r@);
        if let Some(v) = &self.engineer_contact {
            r.push(("Contact", v.as_str()));
        }
        proof {
            let j = self@;
            assert(r1 =~= opt_row("Date"@, j.date));
            assert(r2 =~= r1 + opt_row("Artist / act"@, j.artist));
            assert(r3 =~= r2 + opt_row("Venue"@, j.venue));
            assert(r4 =~= r3 + opt_row("Production"@, j.production_company));
            assert(r5 =~= r4 + opt_row("Engineer"@, j.engineer));
            assert(rows_view(r@) =~= r5 + opt_row("Contact"@, j.engineer_contact));
        }
        r
    }

    fn set_custom(&mut self, label: Vec<char>, v: String)
        ensures
            final(self)@ == (JobInfoView { custom: custom_set(old(self)@.custom, label@, v@), ..old(self)@ }),
    {
        let ghost cs = old(self)@.custom;
        let ghost p = |q: (Seq<char>, Seq<char>)| q.0 == label@;
        let mut i: usize = 0;
        while i < self.custom.len()
            invariant
                i <= self.custom@.len(),
                self@ == old(self)@,
                cs == pairs_view(self.custom@),
                p == (|q: (Seq<char>, Seq<char>)| q.0 == label@),
                forall|j: int| 0 <= j < i ==> !p(#[trigger] cs[j]),
            decreases self.custom@.len() - i,
        {
            let k = chars_of(self.custom[i].0.as_str());
            if eq_chars(k.as_slice(), label.as_slice()) {
                proof {
                    assert(cs[i as int] == (self.custom@[i as int].0@, self.custom@[i as int].1@));
                    lemma_first_match_at(cs, p, i as int);
                }
                self.custom.set(i, (string_of(label.as_slice()), v));
                proof {
                    assert(pairs_view(self.custom@) =~= cs.update(i as int, (label@, v@)));
                }
                return;
            }
            proof {
                assert(cs[i as int] == (self.custom@[i as int].0@, self.custom@[i as int].1@));
            }
            i = i + 1;
        }
        proof {
            lemma_first_match_none(cs, p);
        }
        self.custom.push((string_of(label.as_slice()), v));
        proof {
            assert(pairs_view(self.custom@) =~= cs.push((label@, v@)));
        }
    }

    fn set_chars(&mut self, key: &[char], value: &[char]) -> (r: bool)
        ensures
            (final(self)@, r) == set_spec(old(self)@, key@, value@),
    {
        let v = clean(value);
        let n = norm_key_vec(key);
        match field_for_exec(n.as_slice()) {
            JobField::Event => self.event = v,
            JobField::Date => self.date = v,
            JobField::Artist => self.artist = v,
            JobField::Venue => self.venue = v,
            JobField::Production => self.production_company = v,
            JobField::Engineer => self.engineer = v,
            JobField::Contact => self.engineer_contact = v,
            JobField::Console => self.console = v,
            JobField::Firmware => self.firmware = v,
            JobField::Notes => self.notes = v,
            JobField::Logo => return false,
            JobField::Custom => {
                if let Some(t) = v {
                    // The user's own capitalisation stays on the label.
                    let label = trim_vec(key);
                    self.set_custom(label, t);
                }
            },
        }
        true
    }

    /// Set a field by its sidecar key. Unknown keys become custom fields.
    /// Returns false only for the logo, which is bytes rather than text.
    pub fn set(&mut self, key: &str, value: &str) -> (r: bool)
        ensures
            (final(self)@, r) == set_spec(old(self)@, key@, value@),
    {
        let k = chars_of(key);
        let v = chars_of(value);
        self.set_chars(k.as_slice(), v.as_slice())
    }

    /// Parse a `key: value` sidecar. Blank lines and `#` comments are
    /// ignored; unknown keys become custom fields; `logo:` names a file and
    /// is returned separately.
    pub fn parse_sidecar(text: &str) -> (r: (JobInfo, Option<String>))
        ensures
            (r.0@, opt_text(r.1)) == parse_sidecar_spec(text@),
    {
        let cs = chars_of(text);
        let lines = split_chars(cs.as_slice(), '\n');
        let ghost ls = views(lines@);
        let mut job = JobInfo::default();
        let mut logo_path: Option<String> = None;
        let mut i: usize = 0;
        while i < lines.len()
            invariant
                i <= lines@.len(),
                ls == views(lines@),
                ls == split_spec(text@, '\n'),
                (job@, opt_text(logo_path)) == sidecar_fold(ls, i as nat),
            decreases lines@.len() - i,
        {
            let ghost before = (job@, opt_text(logo_path));
            let t = trim_vec(lines[i].as_slice());
            proof {
                assert(ls[i as int] == lines@[i as int]@);
            }
            if t.len() == 0 || t[0] == '#' {
            } else {
                match find_char(t.as_slice(), ':') {
                    None => {},
                    Some(c) => {
                        let key = slice_vec(t.as_slice(), 0, c);
                        let value = slice_vec(t.as_slice(), c + 1, t.len());
                        proof {
                            assert(key@ =~= t@.take(c as int));
                            assert(value@ =~= t@.skip(c + 1));
                        }
                        let lk = lower_vec(trim_vec(key.as_slice()).as_slice());
                        if eq_str(lk.as_slice(), "logo") {
                            logo_path = clean(value.as_slice());
                        } else {
                            job.set_chars(key.as_slice(), value.as_slice());
                        }
                    },
                }
            }
            i = i + 1;
            proof {
                assert(sidecar_fold(ls, i as nat) == sidecar_step(before, ls[i - 1]));
            }
        }
        (job, logo_path)
    }
}

// ---------------------------------------------------------------------------
// Laws
// ---------------------------------------------------------------------------

pub open spec fn filled(o: Option<Seq<char>>) -> bool {
    match o {
        Some(t) => t.len() > 0,
        None => true,
    }
}

/// No field holds an empty text: blanks clear a field instead.
pub open spec fn no_blank(j: JobInfoView) -> bool {
    &&& filled(j.event) && filled(j.date) && filled(j.artist) && filled(j.venue)
    &&& filled(j.production_company) && filled(j.engineer) && filled(j.engineer_contact)
    &&& filled(j.console) && filled(j.firmware) && filled(j.notes)
    &&& forall|i: int| 0 <= i < j.custom.len() ==> (#[trigger] j.custom[i]).1.len() > 0
}

/// No custom label occurs twice.
pub open spec fn distinct_labels(cs: Seq<(Seq<char>, Seq<char>)>) -> bool {
    forall|a: int, b: int| 0 <= a < b < cs.len() ==> (#[trigger] cs[a]).0 != (#[trigger] cs[b]).0
}

proof fn lemma_custom_set(cs: Seq<(Seq<char>, Seq<char>)>, label: Seq<char>, v: Seq<char>)
    requires
        v.len() > 0,
    ensures
        (forall|i: int| 0 <= i < cs.len() ==> (#[trigger] cs[i]).1.len() > 0) ==> forall|i: int|
            0 <= i < custom_set(cs, label, v).len() ==> (#[trigger] custom_set(cs, label, v)[i]).1.len() > 0,
        distinct_labels(cs) ==> distinct_labels(custom_set(cs, label, v)),
{
    let p = |q: (Seq<char>, Seq<char>)| q.0 == label;
    crate::text::lemma_first_match(cs, p);
    let r = custom_set(cs, label, v);
    if forall|i: int| 0 <= i < cs.len() ==> (#[trigger] cs[i]).1.len() > 0 {
        assert forall|i: int| 0 <= i < r.len() implies (#[trigger] r[i]).1.len() > 0 by {
            if i < cs.len() {
                assert(r[i] == cs[i] || r[i] == (label, v));
            }
        }
    }
    if distinct_labels(cs) {
        assert forall|a: int, b: int| 0 <= a < b < r.len() implies (#[trigger] r[a]).0 != (#[trigger] r[b]).0 by {
            if b < cs.len() {
                assert(r[a].0 == cs[a].0);
                assert(r[b].0 == cs[b].0);
                assert(cs[a].0 != cs[b].0);
            } else {
                assert(r[a] == cs[a]);
            }
        }
    }
}

/// Whatever key is set, a job without blank values keeps none, and its
/// custom labels stay distinct: setting a known label again replaces its
/// value.
pub proof fn law_set_keeps_job_clean(j: JobInfoView, key: Seq<char>, value: Seq<char>)
    requires
        no_blank(j),
        distinct_labels(j.custom),
    ensures
        no_blank(set_spec(j, key, value).0),
        distinct_labels(set_spec(j, key, value).0.custom),
{
    if let Some(t) = clean_spec(value) {
        lemma_custom_set(j.custom, trim(key), t);
    }
}

proof fn lemma_fold_clean(lines: Seq<Seq<char>>, n: nat)
    ensures
        no_blank(sidecar_fold(lines, n).0),
        distinct_labels(sidecar_fold(lines, n).0.custom),
        filled(sidecar_fold(lines, n).1),
    decreases n,
{
    if n == 0 || n > lines.len() {
    } else {
        lemma_fold_clean(lines, (n - 1) as nat);
        let st = sidecar_fold(lines, (n - 1) as nat);
        let t = trim(lines[n - 1]);
        if t.len() == 0 || t[0] == '#' {
        } else {
            match index_of_char(t, ':') {
                None => {},
                Some(i) => law_set_keeps_job_clean(st.0, t.take(i), t.skip(i + 1)),
            }
        }
    }
}

/// A sidecar never yields an empty value: a blank value clears its field
/// rather than printing an empty row, and the logo path is absent rather
/// than empty. Custom labels come out distinct.
pub proof fn law_sidecar_values_are_never_blank(text: Seq<char>)
    ensures
        no_blank(parse_sidecar_spec(text).0),
        distinct_labels(parse_sidecar_spec(text).0.custom),
        filled(parse_sidecar_spec(text).1),
{
    let lines = split_spec(text, '\n');
    lemma_fold_clean(lines, lines.len());
}

} // verus!
