//! Repairs to a tasks directory: stripping legacy frontmatter, migrating
//! legacy ids, renaming files into canonical form and renumbering duplicates.
//! The library decides; the caller performs the filesystem work it asks for.
use vstd::prelude::*;

verus! {

/// How `fix` treats task files that still carry legacy YAML frontmatter.
#[derive(Debug, Clone, Copy, PartialEq, Eq)]
pub enum MigrateMode {
    /// Refuse to run if any file has frontmatter, naming the files.
    Prompt,
    /// Strip frontmatter from every file that has it before the rest of the work.
    Migrate,
    /// Skip the frontmatter check entirely.
    Skip,
}

/// `s` without the run of `\n` at its start.
pub open spec fn drop_leading_newlines(s: Seq<char>) -> Seq<char>
    decreases s.len(),
{
    if s.len() > 0 && s[0] == '\n' {
        drop_leading_newlines(s.skip(1))
    } else {
        s
    }
}

/// The body of `content` once its frontmatter block is removed (line endings
/// normalised, newlines right after the closing `---` dropped), or `None`
/// when `content` does not start with a closed frontmatter block.
pub open spec fn spec_strip_frontmatter(content: Seq<char>) -> Option<Seq<char>> {
    let n = crate::util::normalized(content);
    match crate::frontmatter::frontmatter_close(n) {
        Some(k) => Some(drop_leading_newlines(n.skip(k + 5))),
        None => None,
    }
}

/// Strip a leading YAML frontmatter block from `content`, returning the
/// remaining body. Returns `None` if the content does not start with a
/// well-formed frontmatter block (`---\n...\n---\n`).
pub fn strip_frontmatter(content: &str) -> (r: Option<String>)
    ensures
        match r {
            Some(body) => spec_strip_frontmatter(content@) == Some(body@),
            None => spec_strip_frontmatter(content@) is None,
        },
{
    let raw = crate::text::chars_of(content);
    let n = crate::util::normalize_chars(&raw);
    let k = match crate::frontmatter::find_frontmatter_close(&n) {
        Some(k) => k,
        None => return None,
    };
    proof {
        crate::text::lemma_find_from(n@, crate::frontmatter::close_marker(), 4);
    }
    let mut i = k + 5;
    assert(drop_leading_newlines(n@.skip(k + 5)) == drop_leading_newlines(n@.skip(i as int)));
    while i < n.len() && n[i] == '\n'
        invariant
            k + 5 <= i <= n.len(),
            drop_leading_newlines(n@.skip(k + 5)) == drop_leading_newlines(n@.skip(i as int)),
        decreases n.len() - i,
    {
        assert(n@.skip(i as int).skip(1) =~= n@.skip(i + 1));
        i = i + 1;
    }
    let body = crate::text::string_of_range(&n, i, n.len());
    assert(n@.skip(i as int) =~= n@.subrange(i as int, n@.len() as int));
    Some(body)
}

/// True if `content` starts with a well-formed YAML frontmatter block.
pub fn has_frontmatter(content: &str) -> (r: bool)
    ensures
        r == spec_strip_frontmatter(content@) is Some,
{
    strip_frontmatter(content).is_some()
}

/// The clauses of a fix summary, in their fixed order, for the counters that are not zero.
pub open spec fn summary_parts(renamed: nat, migrated: nat, renumbered: nat, stripped: nat) -> Seq<
    Seq<char>,
> {
    let a: Seq<Seq<char>> = if stripped > 0 {
        seq!["stripped frontmatter from "@ + crate::text::decimal(stripped) + " file(s)"@]
    } else {
        seq![]
    };
    let b: Seq<Seq<char>> = if renamed > 0 {
        seq!["renamed "@ + crate::text::decimal(renamed) + " file(s)"@]
    } else {
        seq![]
    };
    let c: Seq<Seq<char>> = if migrated > 0 {
        seq!["migrated "@ + crate::text::decimal(migrated) + " file(s) to numeric ID format"@]
    } else {
        seq![]
    };
    let d: Seq<Seq<char>> = if renumbered > 0 {
        seq!["renumbered "@ + crate::text::decimal(renumbered) + " duplicate ID(s)"@]
    } else {
        seq![]
    };
    a + b + c + d
}

/// `s` with its first character made uppercase when it is an ASCII lowercase letter.
pub open spec fn capitalize(s: Seq<char>) -> Seq<char> {
    if s.len() > 0 && 'a' <= s[0] && s[0] <= 'z' {
        s.update(0, ((s[0] as u32) - 32) as char)
    } else {
        s
    }
}

/// The human-readable fix summary for the given change counters.
pub open spec fn spec_fix_summary(renamed: nat, migrated: nat, renumbered: nat, stripped: nat) -> Seq<
    char,
> {
    if renamed == 0 && migrated == 0 && renumbered == 0 && stripped == 0 {
        "All files already correct"@
    } else {
        capitalize(
            crate::text::join(summary_parts(renamed, migrated, renumbered, stripped), ", "@),
        )
    }
}

fn part(head: &str, n: usize, tail: &str) -> (r: String)
    ensures
        r@ == head@ + crate::text::decimal(n as nat) + tail@,
{
    let mut s = head.to_owned();
    crate::text::push_decimal(&mut s, n);
    crate::text::push_str(&mut s, tail);
    s
}

/// Compute the human-readable fix summary from the change counters.
pub fn fix_summary(renamed: usize, migrated: usize, renumbered: usize, frontmatter_stripped: usize) -> (r: String)
    ensures
        r@ == spec_fix_summary(
            renamed as nat,
            migrated as nat,
            renumbered as nat,
            frontmatter_stripped as nat,
        ),
{
    if renamed == 0 && migrated == 0 && renumbered == 0 && frontmatter_stripped == 0 {
        return "All files already correct".to_owned();
    }
    let mut parts: Vec<String> = Vec::new();
    if frontmatter_stripped > 0 {
        parts.push(part("stripped frontmatter from ", frontmatter_stripped, " file(s)"));
    }
    if renamed > 0 {
        parts.push(part("renamed ", renamed, " file(s)"));
    }
    if migrated > 0 {
        parts.push(part("migrated ", migrated, " file(s) to numeric ID format"));
    }
    if renumbered > 0 {
        parts.push(part("renumbered ", renumbered, " duplicate ID(s)"));
    }
    assert(crate::text::views(parts@) =~= summary_parts(
        renamed as nat,
        migrated as nat,
        renumbered as nat,
        frontmatter_stripped as nat,
    ));
    let joined = crate::text::join_strings(&parts, ", ");
    let v = crate::text::chars_of(joined.as_str());
    if v.len() == 0 {
        return String::new();
    }
    let c = v[0];
    let mut out = String::new();
    if 'a' <= c && c <= 'z' {
        crate::text::push_char(&mut out, ((c as u8) - 32) as char);
    } else {
        crate::text::push_char(&mut out, c);
    }
    let rest = crate::text::string_of_range(&v, 1, v.len());
    crate::text::push_str(&mut out, rest.as_str());
    assert(out@ =~= capitalize(joined@));
    out
}

proof fn lemma_join_first(parts: Seq<Seq<char>>, sep: Seq<char>)
    requires
        parts.len() > 0,
        parts[0].len() > 0,
    ensures
        crate::text::join(parts, sep).len() > 0,
        crate::text::join(parts, sep)[0] == parts[0][0],
    decreases parts.len(),
{
    if parts.len() > 1 {
        lemma_join_first(parts.drop_last(), sep);
    }
}

/// The summary reads "All files already correct" exactly when every counter is zero.
pub proof fn lemma_summary_all_correct_iff_zero(
    renamed: nat,
    migrated: nat,
    renumbered: nat,
    stripped: nat,
)
    ensures
        (spec_fix_summary(renamed, migrated, renumbered, stripped) == "All files already correct"@)
            <==> (renamed == 0 && migrated == 0 && renumbered == 0 && stripped == 0),
{
    reveal_strlit("All files already correct");
    if !(renamed == 0 && migrated == 0 && renumbered == 0 && stripped == 0) {
        reveal_strlit("stripped frontmatter from ");
        reveal_strlit("renamed ");
        reveal_strlit("migrated ");
        reveal_strlit("renumbered ");
        let parts = summary_parts(renamed, migrated, renumbered, stripped);
        assert(parts.len() > 0);
        assert(parts[0][0] == 's' || parts[0][0] == 'r' || parts[0][0] == 'm');
        lemma_join_first(parts, ", "@);
        let j = crate::text::join(parts, ", "@);
        assert(capitalize(j)[0] != 'A');
        assert(spec_fix_summary(renamed, migrated, renumbered, stripped)[0] != "All files already correct"@[0]);
    }
}

/// The outcome of a fix run.
#[derive(Debug)]
pub struct FixResult {
    pub renamed: usize,
    pub migrated: usize,
    /// Per-file rename details: `(old_filename, new_filename)`.
    pub renames: Vec<(String, String)>,
    /// Per-file renumber details: `(old_id, new_id, old_filename, new_filename)`.
    /// Files that shared a duplicate id with another; the winner keeps the id,
    /// every other duplicate gets a fresh one. References to the old id
    /// elsewhere are not rewritten: this list is what a human greps for.
    pub renumbered: Vec<(String, String, String, String)>,
    /// Filenames whose YAML frontmatter was stripped.
    pub frontmatter_stripped: Vec<String>,
    /// Filenames found with frontmatter in prompt mode.
    pub frontmatter_pending: Vec<String>,
    pub errors: Vec<String>,
}

impl FixResult {
    /// A result with nothing done yet.
    pub fn new() -> (r: FixResult)
        ensures
            r.renamed == 0,
            r.migrated == 0,
            r.renames@.len() == 0,
            r.renumbered@.len() == 0,
            r.frontmatter_stripped@.len() == 0,
            r.frontmatter_pending@.len() == 0,
            r.errors@.len() == 0,
    {
        FixResult {
            renamed: 0,
            migrated: 0,
            renames: Vec::new(),
            renumbered: Vec::new(),
            frontmatter_stripped: Vec::new(),
            frontmatter_pending: Vec::new(),
            errors: Vec::new(),
        }
    }

    /// No error was recorded.
    pub fn ok(&self) -> (r: bool)
        ensures
            r == (self.errors@.len() == 0),
    {
        self.errors.len() == 0
    }

    /// The human-readable summary of this result.
    pub fn summary(&self) -> (r: String)
        ensures
            r@ == spec_fix_summary(
                self.renamed as nat,
                self.migrated as nat,
                self.renumbered@.len(),
                self.frontmatter_stripped@.len(),
            ),
    {
        fix_summary(
            self.renamed,
            self.migrated,
            self.renumbered.len(),
            self.frontmatter_stripped.len(),
        )
    }
}

} // verus!

verus! {

/// What `fix` does with one task file when bringing names into canonical form.
#[derive(Debug, Clone)]
pub enum FixStep {
    /// The name is already canonical.
    Keep,
    /// The file cannot be fixed; the message says why.
    Fail(String),
    /// Rename the file `from` to `to`; `migrated` when its id changes.
    Rename { from: String, to: String, migrated: bool },
}

/// A fix step by its views.
pub enum FixStepView {
    Keep,
    Fail(Seq<char>),
    Rename(Seq<char>, Seq<char>, bool),
}

impl View for FixStep {
    type V = FixStepView;

    open spec fn view(&self) -> FixStepView {
        match self {
            FixStep::Keep => FixStepView::Keep,
            FixStep::Fail(m) => FixStepView::Fail(m@),
            FixStep::Rename { from, to, migrated } => FixStepView::Rename(from@, to@, *migrated),
        }
    }
}

/// The first sequence number at or after `s` that `used` does not hold,
/// stopping at 1000 (past the three-digit range).
pub open spec fn next_free(used: Seq<u32>, s: u32) -> u32
    decreases 1000 - s,
{
    if s >= 1000 || !used.contains(s) {
        s
    } else {
        next_free(used, (s + 1) as u32)
    }
}

/// The outcome of one file under `prefix`, with `used` the sequence numbers
/// already taken: the step, and the taken numbers afterwards. Legacy and
/// alpha-prefix ids move into the local bucket at their own sequence number
/// or the next free one.
pub open spec fn fix_step(prefix: Seq<char>, used: Seq<u32>, name: Seq<char>) -> (FixStepView, Seq<u32>) {
    match crate::filename::spec_parse_filename(name) {
        None => (FixStepView::Fail(name + ": could not parse file"@), used),
        Some(f) => {
            let b = vstd::utf8::encode_utf8(f.0);
            if crate::ids::spec_needs_migration(b) {
                let seq = crate::ids::spec_id_seq(b);
                if seq > 999 {
                    (
                        FixStepView::Fail(
                            name + ": task sequence "@ + crate::text::decimal(seq as nat)
                                + " exceeds 999, cannot migrate to 3-digit format"@,
                        ),
                        used,
                    )
                } else {
                    let s = next_free(used, seq);
                    if s > 999 {
                        (
                            FixStepView::Fail(
                                name + ": no available sequence after collision avoidance"@,
                            ),
                            used,
                        )
                    } else {
                        let new_id = prefix + crate::text::three_digits(s as int);
                        let expected = crate::filename::spec_format_filename(new_id, f.1, f.2, f.3);
                        let step = if name == expected {
                            FixStepView::Keep
                        } else {
                            FixStepView::Rename(name, expected, new_id != f.0)
                        };
                        (step, used.push(s))
                    }
                }
            } else {
                let expected = crate::filename::spec_format_filename(f.0, f.1, f.2, f.3);
                let step = if name == expected {
                    FixStepView::Keep
                } else {
                    FixStepView::Rename(name, expected, false)
                };
                (step, used)
            }
        },
    }
}

/// The steps for `files[i..]`, threading the taken sequence numbers through.
pub open spec fn fix_steps_from(prefix: Seq<char>, used: Seq<u32>, files: Seq<Seq<char>>, i: int) -> Seq<
    FixStepView,
>
    decreases files.len() - i,
{
    if i < 0 || i >= files.len() {
        seq![]
    } else {
        let (step, used2) = fix_step(prefix, used, files[i]);
        seq![step] + fix_steps_from(prefix, used2, files, i + 1)
    }
}

/// The rename plan for the task files `files` (sorted) under the local
/// `prefix`: one step per file, starting from the sequence numbers the
/// local-prefix files already use.
pub open spec fn spec_fix_plan(prefix: Seq<char>, files: Seq<Seq<char>>) -> Seq<FixStepView> {
    fix_steps_from(prefix, crate::ids::seqs_of(files, prefix), files, 0)
}

/// The views of a list of steps.
pub open spec fn step_views(v: Seq<FixStep>) -> Seq<FixStepView> {
    v.map_values(|s: FixStep| s@)
}

fn contains_seq(v: &Vec<u32>, x: u32) -> (r: bool)
    ensures
        r == v@.contains(x),
{
    let mut i: usize = 0;
    while i < v.len()
        invariant
            i <= v.len(),
            forall|j: int| 0 <= j < i ==> v@[j] != x,
        decreases v.len() - i,
    {
        if v[i] == x {
            return true;
        }
        i = i + 1;
    }
    false
}

fn exec_fix_step(prefix: &str, used: &mut Vec<u32>, name: &str) -> (step: FixStep)
    ensures
        (step@, final(used)@) == fix_step(prefix@, old(used)@, name@),
{
    let p = match crate::filename::parse_filename(name) {
        None => {
            let mut m = name.to_owned();
            crate::text::push_str(&mut m, ": could not parse file");
            return FixStep::Fail(m);
        },
        Some(p) => p,
    };
    proof {
        crate::filename::lemma_format_parse_roundtrip(name@);
        crate::ids::lemma_valid_id_splits(p.id@);
    }
    let mut new_id = p.id.clone();
    let mut migrated = false;
    if crate::ids::needs_migration(p.id.as_str(), prefix) {
        let (_, seq) = crate::ids::parse_id_parts(p.id.as_str());
        if seq > 999 {
            let mut m = name.to_owned();
            crate::text::push_str(&mut m, ": task sequence ");
            crate::text::push_decimal(&mut m, seq as usize);
            crate::text::push_str(&mut m, " exceeds 999, cannot migrate to 3-digit format");
            return FixStep::Fail(m);
        }
        let mut s = seq;
        while s < 1000 && contains_seq(used, s)
            invariant
                s <= 1000,
                next_free(used@, seq) == next_free(used@, s),
            decreases 1000 - s,
        {
            s = s + 1;
        }
        if s > 999 {
            let mut m = name.to_owned();
            crate::text::push_str(&mut m, ": no available sequence after collision avoidance");
            return FixStep::Fail(m);
        }
        used.push(s);
        let mut id = prefix.to_owned();
        crate::text::push_three_digits(&mut id, s);
        migrated = !crate::text::str_eq(id.as_str(), p.id.as_str());
        new_id = id;
    }
    let expected = crate::filename::format_filename(new_id.as_str(), p.priority, p.status, p.slug.as_str());
    if crate::text::str_eq(name, expected.as_str()) {
        FixStep::Keep
    } else {
        FixStep::Rename { from: name.to_owned(), to: expected, migrated }
    }
}

/// Decide, for each task file in `files` (sorted), whether it keeps its
/// name, is renamed into canonical form (migrating legacy and alpha-prefix
/// ids into the local bucket `prefix`), or cannot be fixed.
pub fn plan_fix(prefix: &str, files: &Vec<String>) -> (r: Vec<FixStep>)
    ensures
        step_views(r@) == spec_fix_plan(prefix@, crate::text::views(files@)),
{
    let mut used = crate::ids::used_sequences(files, prefix);
    let ghost fs = crate::text::views(files@);
    let ghost used0 = used@;
    let mut r: Vec<FixStep> = Vec::new();
    let mut i: usize = 0;
    while i < files.len()
        invariant
            i <= files.len(),
            fs == crate::text::views(files@),
            step_views(r@) + fix_steps_from(prefix@, used@, fs, i as int) == fix_steps_from(
                prefix@,
                used0,
                fs,
                0,
            ),
        decreases files.len() - i,
    {
        let ghost before = used@;
        let step = exec_fix_step(prefix, &mut used, files[i].as_str());
        let ghost old_steps = step_views(r@);
        r.push(step);
        assert(step_views(r@) =~= old_steps + seq![step@]);
        assert(fix_steps_from(prefix@, before, fs, i as int) == seq![step@] + fix_steps_from(
            prefix@,
            used@,
            fs,
            i + 1,
        ));
        i = i + 1;
    }
    assert(step_views(r@) =~= fix_steps_from(prefix@, used0, fs, 0));
    r
}

} // verus!

verus! {

/// What happened when the caller tried a rename that the library asked for.
#[derive(Debug, Clone)]
pub enum RenameOutcome {
    /// The target name was already taken; nothing was renamed.
    TargetExists,
    /// The rename failed; the text describes the failure.
    Failed(String),
    /// The file was renamed.
    Done,
}

/// The message reported when frontmatter blocks a prompt-mode fix.
pub open spec fn pending_message(n: nat) -> Seq<char> {
    crate::text::decimal(n)
        + " task file(s) have legacy YAML frontmatter that must be removed. Run 'taskmd fix --migrate' to strip it (destructive; commit first), or 'taskmd fix --no-migrate' to skip the check"@
}

fn message2(a: &str, b: &str) -> (r: String)
    ensures
        r@ == a@ + b@,
{
    let mut s = a.to_owned();
    crate::text::push_str(&mut s, b);
    s
}

fn message3(a: &str, b: &str, c: &str) -> (r: String)
    ensures
        r@ == a@ + b@ + c@,
{
    let mut s = a.to_owned();
    crate::text::push_str(&mut s, b);
    crate::text::push_str(&mut s, c);
    s
}

impl FixResult {
    /// Record the prompt-mode frontmatter check of the file `name`: `read`
    /// is its content, or the text of the read error.
    pub fn note_prompt_read(&mut self, name: &str, read: Result<String, String>)
        ensures
            final(self).renamed == old(self).renamed,
            final(self).migrated == old(self).migrated,
            final(self).renames@ == old(self).renames@,
            final(self).renumbered@ == old(self).renumbered@,
            final(self).frontmatter_stripped@ == old(self).frontmatter_stripped@,
            match read {
                Err(e) => {
                    &&& crate::text::views(final(self).errors@) == crate::text::views(old(self).errors@).push(
                        name@ + ": cannot read for frontmatter check: "@ + e@,
                    )
                    &&& final(self).frontmatter_pending@ == old(self).frontmatter_pending@
                },
                Ok(c) => {
                    &&& final(self).errors@ == old(self).errors@
                    &&& crate::text::views(final(self).frontmatter_pending@) == if spec_strip_frontmatter(
                        c@,
                    ) is Some {
                        crate::text::views(old(self).frontmatter_pending@).push(name@)
                    } else {
                        crate::text::views(old(self).frontmatter_pending@)
                    }
                },
            },
    {
        match read {
            Err(e) => {
                let ghost before = crate::text::views(self.errors@);
                self.errors.push(message3(name, ": cannot read for frontmatter check: ", e.as_str()));
                assert(crate::text::views(self.errors@) =~= before.push(
                    name@ + ": cannot read for frontmatter check: "@ + e@,
                ));
            },
            Ok(c) => {
                if has_frontmatter(c.as_str()) {
                    let ghost before = crate::text::views(self.frontmatter_pending@);
                    self.frontmatter_pending.push(name.to_owned());
                    assert(crate::text::views(self.frontmatter_pending@) =~= before.push(name@));
                }
            },
        }
    }

    /// After every file was checked in prompt mode: when any file still has
    /// frontmatter, record the error naming how to proceed. Returns whether
    /// the fix must stop here (frontmatter found, or a file was unreadable).
    pub fn finish_prompt(&mut self) -> (stop: bool)
        ensures
            final(self).frontmatter_pending@ == old(self).frontmatter_pending@,
            final(self).renames@ == old(self).renames@,
            final(self).renamed == old(self).renamed,
            final(self).migrated == old(self).migrated,
            final(self).renumbered@ == old(self).renumbered@,
            final(self).frontmatter_stripped@ == old(self).frontmatter_stripped@,
            old(self).frontmatter_pending@.len() > 0 ==> {
                &&& crate::text::views(final(self).errors@) == crate::text::views(old(self).errors@).push(
                    pending_message(old(self).frontmatter_pending@.len()),
                )
                &&& stop
            },
            old(self).frontmatter_pending@.len() == 0 ==> {
                &&& final(self).errors@ == old(self).errors@
                &&& stop == (old(self).errors@.len() > 0)
            },
    {
        let n = self.frontmatter_pending.len();
        if n > 0 {
            let mut m = String::new();
            crate::text::push_decimal(&mut m, n);
            crate::text::push_str(
                &mut m,
                " task file(s) have legacy YAML frontmatter that must be removed. Run 'taskmd fix --migrate' to strip it (destructive; commit first), or 'taskmd fix --no-migrate' to skip the check",
            );
            let ghost before = crate::text::views(self.errors@);
            self.errors.push(m);
            assert(crate::text::views(self.errors@) =~= before.push(pending_message(n as nat)));
            return true;
        }
        self.errors.len() > 0
    }

    /// Record the migrate-mode read of the file `name`; returns the body to
    /// write back when the file has frontmatter to strip.
    pub fn note_migrate_read(&mut self, name: &str, read: Result<String, String>) -> (body: Option<String>)
        ensures
            final(self).frontmatter_stripped@ == old(self).frontmatter_stripped@,
            final(self).frontmatter_pending@ == old(self).frontmatter_pending@,
            final(self).renames@ == old(self).renames@,
            final(self).renamed == old(self).renamed,
            final(self).migrated == old(self).migrated,
            final(self).renumbered@ == old(self).renumbered@,
            match read {
                Err(e) => {
                    &&& crate::text::views(final(self).errors@) == crate::text::views(old(self).errors@).push(
                        name@ + ": cannot read: "@ + e@,
                    )
                    &&& body is None
                },
                Ok(c) => {
                    &&& final(self).errors@ == old(self).errors@
                    &&& match body {
                        Some(b) => spec_strip_frontmatter(c@) == Some(b@),
                        None => spec_strip_frontmatter(c@) is None,
                    }
                },
            },
    {
        match read {
            Err(e) => {
                let ghost before = crate::text::views(self.errors@);
                self.errors.push(message3(name, ": cannot read: ", e.as_str()));
                assert(crate::text::views(self.errors@) =~= before.push(name@ + ": cannot read: "@ + e@));
                None
            },
            Ok(c) => strip_frontmatter(c.as_str()),
        }
    }

    /// Record the write-back of a stripped body to the file `name`: `write`
    /// is success or the text of the write error.
    pub fn note_migrate_write(&mut self, name: &str, write: Result<(), String>)
        ensures
            final(self).frontmatter_pending@ == old(self).frontmatter_pending@,
            final(self).renames@ == old(self).renames@,
            final(self).renamed == old(self).renamed,
            final(self).migrated == old(self).migrated,
            final(self).renumbered@ == old(self).renumbered@,
            match write {
                Err(e) => {
                    &&& crate::text::views(final(self).errors@) == crate::text::views(old(self).errors@).push(
                        name@ + ": cannot write: "@ + e@,
                    )
                    &&& final(self).frontmatter_stripped@ == old(self).frontmatter_stripped@
                },
                Ok(()) => {
                    &&& final(self).errors@ == old(self).errors@
                    &&& crate::text::views(final(self).frontmatter_stripped@) == crate::text::views(
                        old(self).frontmatter_stripped@,
                    ).push(name@)
                },
            },
    {
        match write {
            Err(e) => {
                let ghost before = crate::text::views(self.errors@);
                self.errors.push(message3(name, ": cannot write: ", e.as_str()));
                assert(crate::text::views(self.errors@) =~= before.push(name@ + ": cannot write: "@ + e@));
            },
            Ok(()) => {
                let ghost before = crate::text::views(self.frontmatter_stripped@);
                self.frontmatter_stripped.push(name.to_owned());
                assert(crate::text::views(self.frontmatter_stripped@) =~= before.push(name@));
            },
        }
    }

    /// Record what came of one planned step. A rename that happened counts
    /// as renamed (and as migrated when the id changed); one that could not
    /// happen is an error; a failed step is an error; a kept name changes nothing.
    pub fn note_step(&mut self, step: &FixStep, outcome: RenameOutcome)
        requires
            old(self).renamed < usize::MAX,
            old(self).migrated < usize::MAX,
        ensures
            final(self).frontmatter_stripped@ == old(self).frontmatter_stripped@,
            final(self).frontmatter_pending@ == old(self).frontmatter_pending@,
            final(self).renumbered@ == old(self).renumbered@,
            old(self).migrated <= old(self).renamed ==> final(self).migrated <= final(self).renamed,
            match step@ {
                FixStepView::Keep => {
                    &&& final(self).errors@ == old(self).errors@
                    &&& final(self).renames@ == old(self).renames@
                    &&& final(self).renamed == old(self).renamed
                    &&& final(self).migrated == old(self).migrated
                },
                FixStepView::Fail(m) => {
                    &&& crate::text::views(final(self).errors@) == crate::text::views(old(self).errors@).push(m)
                    &&& final(self).renames@ == old(self).renames@
                    &&& final(self).renamed == old(self).renamed
                    &&& final(self).migrated == old(self).migrated
                },
                FixStepView::Rename(from, to, migrated) => match outcome {
                    RenameOutcome::TargetExists => {
                        &&& crate::text::views(final(self).errors@) == crate::text::views(
                            old(self).errors@,
                        ).push(from + ": cannot rename to "@ + to + ", file exists"@)
                        &&& final(self).renames@ == old(self).renames@
                        &&& final(self).renamed == old(self).renamed
                        &&& final(self).migrated == old(self).migrated
                    },
                    RenameOutcome::Failed(e) => {
                        &&& crate::text::views(final(self).errors@) == crate::text::views(
                            old(self).errors@,
                        ).push(from + ": cannot rename: "@ + e@)
                        &&& final(self).renames@ == old(self).renames@
                        &&& final(self).renamed == old(self).renamed
                        &&& final(self).migrated == old(self).migrated
                    },
                    RenameOutcome::Done => {
                        &&& final(self).errors@ == old(self).errors@
                        &&& pair_string_views(final(self).renames@) == pair_string_views(
                            old(self).renames@,
                        ).push((from, to))
                        &&& final(self).renamed == old(self).renamed + 1
                        &&& final(self).migrated == old(self).migrated + (if migrated {
                            1int
                        } else {
                            0int
                        })
                    },
                },
            },
    {
        match step {
            FixStep::Keep => {},
            FixStep::Fail(m) => {
                let ghost before = crate::text::views(self.errors@);
                self.errors.push(m.clone());
                assert(crate::text::views(self.errors@) =~= before.push(m@));
            },
            FixStep::Rename { from, to, migrated } => match outcome {
                RenameOutcome::TargetExists => {
                    let ghost before = crate::text::views(self.errors@);
                    let mut s = from.clone();
                    crate::text::push_str(&mut s, ": cannot rename to ");
                    crate::text::push_str(&mut s, to.as_str());
                    crate::text::push_str(&mut s, ", file exists");
                    self.errors.push(s);
                    assert(crate::text::views(self.errors@) =~= before.push(
                        from@ + ": cannot rename to "@ + to@ + ", file exists"@,
                    ));
                },
                RenameOutcome::Failed(e) => {
                    let ghost before = crate::text::views(self.errors@);
                    self.errors.push(message3(from.as_str(), ": cannot rename: ", e.as_str()));
                    assert(crate::text::views(self.errors@) =~= before.push(
                        from@ + ": cannot rename: "@ + e@,
                    ));
                },
                RenameOutcome::Done => {
                    if *migrated {
                        self.migrated = self.migrated + 1;
                    }
                    let ghost before = pair_string_views(self.renames@);
                    self.renames.push((from.clone(), to.clone()));
                    assert(pair_string_views(self.renames@) =~= before.push((from@, to@)));
                    self.renamed = self.renamed + 1;
                },
            },
        }
    }
}

/// The views of a list of string pairs.
pub open spec fn pair_string_views(v: Seq<(String, String)>) -> Seq<(Seq<char>, Seq<char>)> {
    v.map_values(|p: (String, String)| (p.0@, p.1@))
}

} // verus!

verus! {

/// The ids carried by two or more of the task files `files` (sorted), in
/// increasing id order, each with those files in their order.
pub open spec fn duplicate_groups_from(s: Seq<Seq<char>>, files: Seq<Seq<char>>, i: int) -> Seq<
    (Seq<char>, Seq<Seq<char>>),
>
    decreases s.len() - i,
{
    if i < 0 || i >= s.len() {
        seq![]
    } else {
        let j = crate::validate::run_end(s, i, i + 1);
        let here: Seq<(Seq<char>, Seq<Seq<char>>)> = if j - i >= 2 {
            seq![(s[i], crate::validate::files_with_id(files, s[i]))]
        } else {
            seq![]
        };
        if j <= i || j > s.len() {
            here
        } else {
            here + duplicate_groups_from(s, files, j)
        }
    }
}

/// The duplicate-id groups among the task files `files` (sorted).
pub open spec fn spec_duplicate_groups(files: Seq<Seq<char>>) -> Seq<(Seq<char>, Seq<Seq<char>>)> {
    duplicate_groups_from(crate::order::sort_lex(crate::validate::parsed_ids(files)), files, 0)
}

/// The views of a list of groups.
pub open spec fn group_views(v: Seq<(String, Vec<String>)>) -> Seq<(Seq<char>, Seq<Seq<char>>)> {
    v.map_values(|g: (String, Vec<String>)| (g.0@, crate::text::views(g.1@)))
}

/// The ids shared by two or more of the task files `files` (sorted), in
/// increasing order, each with the files that carry it.
pub fn duplicate_groups(files: &Vec<String>) -> (r: Vec<(String, Vec<String>)>)
    ensures
        group_views(r@) == spec_duplicate_groups(crate::text::views(files@)),
{
    let ghost fs = crate::text::views(files@);
    let mut ids: Vec<String> = Vec::new();
    let mut i: usize = 0;
    while i < files.len()
        invariant
            i <= files.len(),
            fs == crate::text::views(files@),
            crate::text::views(ids@) == crate::validate::parsed_ids(fs.take(i as int)),
        decreases files.len() - i,
    {
        assert(fs.take(i + 1).drop_last() =~= fs.take(i as int));
        assert(fs.take(i + 1).last() == files@[i as int]@);
        match crate::filename::parse_filename(files[i].as_str()) {
            Some(p) => {
                ids.push(p.id);
                assert(crate::text::views(ids@) =~= crate::validate::parsed_ids(fs.take(i + 1)));
            },
            None => {},
        }
        i = i + 1;
    }
    assert(fs.take(files.len() as int) =~= fs);
    let sorted = crate::order::sort_strings(ids);
    let ghost ss = crate::text::views(sorted@);
    let mut r: Vec<(String, Vec<String>)> = Vec::new();
    let mut k: usize = 0;
    while k < sorted.len()
        invariant
            k <= sorted.len(),
            ss == crate::text::views(sorted@),
            fs == crate::text::views(files@),
            group_views(r@) + duplicate_groups_from(ss, fs, k as int) == duplicate_groups_from(
                ss,
                fs,
                0,
            ),
        decreases sorted.len() - k,
    {
        let mut j = k + 1;
        while j < sorted.len() && crate::text::str_eq(sorted[j].as_str(), sorted[k].as_str())
            invariant
                k < j <= sorted.len(),
                ss == crate::text::views(sorted@),
                crate::validate::run_end(ss, k as int, k + 1) == crate::validate::run_end(
                    ss,
                    k as int,
                    j as int,
                ),
            decreases sorted.len() - j,
        {
            j = j + 1;
        }
        let ghost before = group_views(r@);
        if j - k >= 2 {
            let group = crate::validate::collect_files_with_id(files, sorted[k].as_str());
            r.push((sorted[k].clone(), group));
            assert(group_views(r@) =~= before + seq![
                (ss[k as int], crate::validate::files_with_id(fs, ss[k as int])),
            ]);
        }
        assert(group_views(r@) + duplicate_groups_from(ss, fs, j as int) =~= before
            + duplicate_groups_from(ss, fs, k as int));
        k = j;
    }
    assert(duplicate_groups_from(ss, fs, k as int) =~= Seq::<(Seq<char>, Seq<Seq<char>>)>::empty());
    assert(group_views(r@) =~= duplicate_groups_from(ss, fs, 0));
    r
}

/// The message for a duplicate that cannot be renumbered because the id
/// space looks exhausted.
pub open spec fn exhausted_message(old_name: Seq<char>, new_id: Seq<char>) -> Seq<char> {
    old_name + ": cannot renumber — prefix space appears exhausted (next_id returned '"@ + new_id
        + "')"@
}

/// The renumbering of the duplicate `old_name` to the freshly allocated id
/// `new_id`: its old id and new filename, or the message saying why not.
pub open spec fn spec_plan_renumber(old_name: Seq<char>, new_id: Seq<char>) -> Result<
    (Seq<char>, Seq<char>),
    Seq<char>,
> {
    match crate::filename::spec_parse_filename(old_name) {
        None => Err(old_name + ": cannot re-parse for renumber"@),
        Some(f) => if crate::ids::spec_id_seq(vstd::utf8::encode_utf8(new_id)) > 999 {
            Err(exhausted_message(old_name, new_id))
        } else {
            Ok((f.0, crate::filename::spec_format_filename(new_id, f.1, f.2, f.3)))
        },
    }
}

/// Decide the renumbering of the duplicate `old_name` to `new_id` (the id
/// allocated for it): returns its old id and its new filename.
pub fn plan_renumber(old_name: &str, new_id: &str) -> (r: Result<(String, String), String>)
    requires
        crate::ids::id_splits(vstd::utf8::encode_utf8(new_id@)),
    ensures
        match r {
            Ok((a, b)) => spec_plan_renumber(old_name@, new_id@) == Ok::<(Seq<char>, Seq<char>), Seq<char>>((a@, b@)),
            Err(m) => spec_plan_renumber(old_name@, new_id@) == Err::<(Seq<char>, Seq<char>), Seq<char>>(m@),
        },
{
    let p = match crate::filename::parse_filename(old_name) {
        None => return Err(message2(old_name, ": cannot re-parse for renumber")),
        Some(p) => p,
    };
    let (_, seq) = crate::ids::parse_id_parts(new_id);
    if seq > 999 {
        let mut m = message3(old_name, ": cannot renumber — prefix space appears exhausted (next_id returned '", new_id);
        crate::text::push_str(&mut m, "')");
        return Err(m);
    }
    let new_filename = crate::filename::format_filename(new_id, p.priority, p.status, p.slug.as_str());
    Ok((p.id, new_filename))
}

/// The views of a list of renumber records.
pub open spec fn quad_views(v: Seq<(String, String, String, String)>) -> Seq<
    (Seq<char>, Seq<char>, Seq<char>, Seq<char>),
> {
    v.map_values(|q: (String, String, String, String)| (q.0@, q.1@, q.2@, q.3@))
}

impl FixResult {
    /// Record what came of renaming the duplicate `old_name` (id `old_id`)
    /// to `new_filename` (id `new_id`).
    pub fn note_renumber(
        &mut self,
        old_id: String,
        new_id: String,
        old_name: String,
        new_filename: String,
        outcome: RenameOutcome,
    )
        ensures
            final(self).renamed == old(self).renamed,
            final(self).migrated == old(self).migrated,
            final(self).renames@ == old(self).renames@,
            final(self).frontmatter_stripped@ == old(self).frontmatter_stripped@,
            final(self).frontmatter_pending@ == old(self).frontmatter_pending@,
            match outcome {
                RenameOutcome::TargetExists => {
                    &&& crate::text::views(final(self).errors@) == crate::text::views(old(self).errors@).push(
                        old_name@ + ": cannot renumber to "@ + new_filename@ + ", file exists"@,
                    )
                    &&& final(self).renumbered@ == old(self).renumbered@
                },
                RenameOutcome::Failed(e) => {
                    &&& crate::text::views(final(self).errors@) == crate::text::views(old(self).errors@).push(
                        old_name@ + ": cannot renumber: "@ + e@,
                    )
                    &&& final(self).renumbered@ == old(self).renumbered@
                },
                RenameOutcome::Done => {
                    &&& final(self).errors@ == old(self).errors@
                    &&& quad_views(final(self).renumbered@) == quad_views(old(self).renumbered@).push(
                        (old_id@, new_id@, old_name@, new_filename@),
                    )
                },
            },
    {
        match outcome {
            RenameOutcome::TargetExists => {
                let ghost before = crate::text::views(self.errors@);
                let mut s = message3(old_name.as_str(), ": cannot renumber to ", new_filename.as_str());
                crate::text::push_str(&mut s, ", file exists");
                self.errors.push(s);
                assert(crate::text::views(self.errors@) =~= before.push(
                    old_name@ + ": cannot renumber to "@ + new_filename@ + ", file exists"@,
                ));
            },
            RenameOutcome::Failed(e) => {
                let ghost before = crate::text::views(self.errors@);
                self.errors.push(message3(old_name.as_str(), ": cannot renumber: ", e.as_str()));
                assert(crate::text::views(self.errors@) =~= before.push(
                    old_name@ + ": cannot renumber: "@ + e@,
                ));
            },
            RenameOutcome::Done => {
                let ghost before = quad_views(self.renumbered@);
                let ghost q = (old_id@, new_id@, old_name@, new_filename@);
                self.renumbered.push((old_id, new_id, old_name, new_filename));
                assert(quad_views(self.renumbered@) =~= before.push(q));
            },
        }
    }
}

} // verus!

verus! {

/// A file whose name parses and whose id is five digits is never touched by
/// the rename plan: it is already canonical, so its step is `Keep` and the
/// taken sequence numbers do not change. In particular a second fix run over
/// a fixed directory renames and migrates nothing.
pub proof fn lemma_fix_step_keeps_numeric(prefix: Seq<char>, used: Seq<u32>, name: Seq<char>)
    requires
        crate::filename::spec_parse_filename(name) matches Some(f) && f.0.len() == 5
            && crate::filename::digits_in(f.0, 0, 5),
    ensures
        fix_step(prefix, used, name) == (FixStepView::Keep, used),
{
    crate::filename::lemma_format_parse_roundtrip(name);
    let f = crate::filename::spec_parse_filename(name)->0;
    crate::ids::lemma_numeric_id_never_migrated(f.0);
}

/// When every task file parses with a five-digit id, the whole rename plan
/// is `Keep`: fix preserves every valid numeric id and renames nothing.
pub proof fn lemma_fix_plan_keeps_numeric(prefix: Seq<char>, files: Seq<Seq<char>>)
    requires
        forall|i: int|
            0 <= i < files.len() ==> (#[trigger] crate::filename::spec_parse_filename(files[i]) matches Some(
                f,
            ) && f.0.len() == 5 && crate::filename::digits_in(f.0, 0, 5)),
    ensures
        forall|i: int| 0 <= i < files.len() ==> #[trigger] spec_fix_plan(prefix, files)[i] == FixStepView::Keep,
        spec_fix_plan(prefix, files).len() == files.len(),
{
    let used = crate::ids::seqs_of(files, prefix);
    lemma_fix_steps_keep(prefix, used, files, 0);
}

proof fn lemma_fix_steps_keep(prefix: Seq<char>, used: Seq<u32>, files: Seq<Seq<char>>, i: int)
    requires
        0 <= i <= files.len(),
        forall|k: int|
            0 <= k < files.len() ==> (#[trigger] crate::filename::spec_parse_filename(files[k]) matches Some(
                f,
            ) && f.0.len() == 5 && crate::filename::digits_in(f.0, 0, 5)),
    ensures
        fix_steps_from(prefix, used, files, i).len() == files.len() - i,
        forall|k: int| 0 <= k < files.len() - i ==> #[trigger] fix_steps_from(prefix, used, files, i)[k] == FixStepView::Keep,
    decreases files.len() - i,
{
    if i < files.len() {
        let _ = crate::filename::spec_parse_filename(files[i]);
        lemma_fix_step_keeps_numeric(prefix, used, files[i]);
        lemma_fix_steps_keep(prefix, used, files, i + 1);
        let rest = fix_steps_from(prefix, used, files, i + 1);
        assert(fix_steps_from(prefix, used, files, i) == seq![FixStepView::Keep] + rest);
        assert forall|k: int| 0 <= k < files.len() - i implies #[trigger] fix_steps_from(prefix, used, files, i)[k] == FixStepView::Keep by {
            if k > 0 {
                assert(fix_steps_from(prefix, used, files, i)[k] == rest[k - 1]);
            }
        }
    }
}

} // verus!

verus! {

/// What one rename step of the fix plan may do to the file `name`: move it
/// to a five-digit id in the bucket `prefix`, keeping priority, status and slug.
pub open spec fn keeps_fields(prefix: Seq<char>, name: Seq<char>, step: FixStepView) -> bool {
    step matches FixStepView::Rename(from, to, migrated) ==> {
        &&& from == name
        &&& crate::filename::spec_parse_filename(name) matches Some(f)
        &&& exists|s: int|
            #![trigger crate::text::three_digits(s)]
            0 <= s <= 999 && crate::filename::spec_parse_filename(to) == Some(
                (prefix + crate::text::three_digits(s), f.1, f.2, f.3),
            ) && migrated == (prefix + crate::text::three_digits(s) != f.0)
    }
}

proof fn lemma_fix_step_keeps_fields(p: int, used: Seq<u32>, name: Seq<char>)
    requires
        0 <= p < 100,
    ensures
        keeps_fields(crate::text::two_digits(p), name, fix_step(crate::text::two_digits(p), used, name).0),
{
    let prefix = crate::text::two_digits(p);
    match crate::filename::spec_parse_filename(name) {
        None => {},
        Some(f) => {
            crate::filename::lemma_format_parse_roundtrip(name);
            let b = vstd::utf8::encode_utf8(f.0);
            if crate::ids::spec_needs_migration(b) {
                let seq = crate::ids::spec_id_seq(b);
                if seq <= 999 {
                    let s = next_free(used, seq);
                    if s <= 999 {
                        crate::ids::lemma_numeric_id_parts(p, s as int);
                        let new_id = prefix + crate::text::three_digits(s as int);
                        crate::filename::lemma_parse_format_roundtrip(new_id, f.1, f.2, f.3);
                    }
                }
            }
        }
    }
}

proof fn lemma_fix_steps_keep_fields(p: int, used: Seq<u32>, files: Seq<Seq<char>>, i: int)
    requires
        0 <= p < 100,
        0 <= i <= files.len(),
    ensures
        fix_steps_from(crate::text::two_digits(p), used, files, i).len() == files.len() - i,
        forall|k: int|
            0 <= k < files.len() - i ==> keeps_fields(
                crate::text::two_digits(p),
                files[i + k],
                #[trigger] fix_steps_from(crate::text::two_digits(p), used, files, i)[k],
            ),
    decreases files.len() - i,
{
    let prefix = crate::text::two_digits(p);
    if i < files.len() {
        let (step, used2) = fix_step(prefix, used, files[i]);
        lemma_fix_step_keeps_fields(p, used, files[i]);
        lemma_fix_steps_keep_fields(p, used2, files, i + 1);
        let rest = fix_steps_from(prefix, used2, files, i + 1);
        assert(fix_steps_from(prefix, used, files, i) == seq![step] + rest);
        assert forall|k: int| 0 <= k < files.len() - i implies keeps_fields(
            prefix,
            files[i + k],
            #[trigger] fix_steps_from(prefix, used, files, i)[k],
        ) by {
            if k > 0 {
                assert(fix_steps_from(prefix, used, files, i)[k] == rest[k - 1]);
                assert(files[i + k] == files[(i + 1) + (k - 1)]);
            }
        }
    }
}

/// Fix changes nothing but ids: every rename it plans, for a local bucket
/// `p`, moves a task file to a five-digit id in that bucket and keeps its
/// priority, status and slug; the plan has one step per file.
pub proof fn lemma_fix_plan_keeps_fields(p: int, files: Seq<Seq<char>>)
    requires
        0 <= p < 100,
    ensures
        spec_fix_plan(crate::text::two_digits(p), files).len() == files.len(),
        forall|i: int|
            0 <= i < files.len() ==> keeps_fields(
                crate::text::two_digits(p),
                files[i],
                #[trigger] spec_fix_plan(crate::text::two_digits(p), files)[i],
            ),
{
    let prefix = crate::text::two_digits(p);
    lemma_fix_steps_keep_fields(p, crate::ids::seqs_of(files, prefix), files, 0);
    assert forall|i: int| 0 <= i < files.len() implies keeps_fields(
        prefix,
        files[i],
        #[trigger] spec_fix_plan(prefix, files)[i],
    ) by {
        assert(files[0 + i] == files[i]);
    }
}

} // verus!

verus! {

/// `name` is a task filename whose id is five ASCII digits.
pub open spec fn five_digit_name(name: Seq<char>) -> bool {
    crate::filename::spec_parse_filename(name) matches Some(f) && f.0.len() == 5
        && crate::filename::digits_in(f.0, 0, 5)
}

/// The name a file has after its step: the target of a rename, else its own.
pub open spec fn name_after(name: Seq<char>, step: FixStepView) -> Seq<char> {
    match step {
        FixStepView::Rename(_, to, _) => to,
        _ => name,
    }
}

proof fn lemma_fix_step_leaves_numeric(p: int, used: Seq<u32>, name: Seq<char>)
    requires
        0 <= p < 100,
    ensures
        !(fix_step(crate::text::two_digits(p), used, name).0 is Fail) ==> five_digit_name(
            name_after(name, fix_step(crate::text::two_digits(p), used, name).0),
        ),
{
    let prefix = crate::text::two_digits(p);
    match crate::filename::spec_parse_filename(name) {
        None => {},
        Some(f) => {
            crate::filename::lemma_format_parse_roundtrip(name);
            crate::ids::lemma_valid_id_migration(f.0);
            let b = vstd::utf8::encode_utf8(f.0);
            if crate::ids::spec_needs_migration(b) {
                let seq = crate::ids::spec_id_seq(b);
                if seq <= 999 {
                    let s = next_free(used, seq);
                    if s <= 999 {
                        crate::ids::lemma_numeric_id_parts(p, s as int);
                        let new_id = prefix + crate::text::three_digits(s as int);
                        crate::filename::lemma_parse_format_roundtrip(new_id, f.1, f.2, f.3);
                    }
                }
            }
        }
    }
}

proof fn lemma_fix_steps_leave_numeric(p: int, used: Seq<u32>, files: Seq<Seq<char>>, i: int)
    requires
        0 <= p < 100,
        0 <= i <= files.len(),
    ensures
        fix_steps_from(crate::text::two_digits(p), used, files, i).len() == files.len() - i,
        forall|k: int|
            0 <= k < files.len() - i && !(#[trigger] fix_steps_from(crate::text::two_digits(p), used, files, i)[k] is Fail)
                ==> five_digit_name(name_after(files[i + k], fix_steps_from(crate::text::two_digits(p), used, files, i)[k])),
    decreases files.len() - i,
{
    let prefix = crate::text::two_digits(p);
    if i < files.len() {
        let (step, used2) = fix_step(prefix, used, files[i]);
        lemma_fix_step_leaves_numeric(p, used, files[i]);
        lemma_fix_steps_leave_numeric(p, used2, files, i + 1);
        let rest = fix_steps_from(prefix, used2, files, i + 1);
        assert(fix_steps_from(prefix, used, files, i) == seq![step] + rest);
        assert forall|k: int|
            0 <= k < files.len() - i && !(#[trigger] fix_steps_from(prefix, used, files, i)[k] is Fail)
            implies five_digit_name(name_after(files[i + k], fix_steps_from(prefix, used, files, i)[k])) by {
            if k > 0 {
                assert(fix_steps_from(prefix, used, files, i)[k] == rest[k - 1]);
                assert(files[i + k] == files[(i + 1) + (k - 1)]);
            }
        }
    }
}

/// A fix leaves only canonical names behind: every file whose step does not
/// fail, for a local bucket `p`, ends up with a five-digit id, whether it
/// keeps its name or is renamed. `lemma_fix_run_leaves_clean` follows the
/// run on through the renumbering of duplicates.
pub proof fn lemma_fix_plan_leaves_numeric(p: int, files: Seq<Seq<char>>)
    requires
        0 <= p < 100,
    ensures
        forall|i: int|
            0 <= i < files.len() && !(#[trigger] spec_fix_plan(crate::text::two_digits(p), files)[i] is Fail)
                ==> five_digit_name(name_after(files[i], spec_fix_plan(crate::text::two_digits(p), files)[i])),
{
    let prefix = crate::text::two_digits(p);
    lemma_fix_steps_leave_numeric(p, crate::ids::seqs_of(files, prefix), files, 0);
    assert forall|i: int|
        0 <= i < files.len() && !(#[trigger] spec_fix_plan(prefix, files)[i] is Fail)
        implies five_digit_name(name_after(files[i], spec_fix_plan(prefix, files)[i])) by {
        assert(files[0 + i] == files[i]);
    }
}

} // verus!

verus! {

/// The id a task filename carries.
pub open spec fn name_id(name: Seq<char>) -> Seq<char> {
    (crate::filename::spec_parse_filename(name)->0).0
}

/// The name the duplicate `name` takes when it is renumbered to `id`: the
/// filename `plan_renumber` plans, or `name` itself when it plans none.
pub open spec fn renumbered_name(name: Seq<char>, id: Seq<char>) -> Seq<char> {
    match spec_plan_renumber(name, id) {
        Ok(r) => r.1,
        Err(_) => name,
    }
}

/// The task files `cur` after the first `k` renumberings, the `j`-th of
/// which moves the file at index `losers[j]` to the id `ids[j]`.
pub open spec fn renumbered_after(cur: Seq<Seq<char>>, losers: Seq<int>, ids: Seq<Seq<char>>, k: int) -> Seq<
    Seq<char>,
>
    decreases k,
{
    if k <= 0 {
        cur
    } else {
        let prev = renumbered_after(cur, losers, ids, k - 1);
        prev.update(losers[k - 1], renumbered_name(prev[losers[k - 1]], ids[k - 1]))
    }
}

/// The file at index `i` is renumbered at step `k` or later.
pub open spec fn pending_at(losers: Seq<int>, k: int, i: int) -> bool {
    exists|j: int| k <= j < losers.len() && #[trigger] losers[j] == i
}

proof fn lemma_renumber_one(p: int, name: Seq<char>, r: Seq<char>, seen: Seq<Seq<char>>)
    requires
        0 <= p < 100,
        five_digit_name(name),
        crate::tasks::is_task_file_name(name),
        crate::ids::spec_is_next_id(p, seen, r),
    ensures
        five_digit_name(renumbered_name(name, r)),
        crate::tasks::is_task_file_name(renumbered_name(name, r)),
        name_id(renumbered_name(name, r)) == r,
{
    crate::ids::lemma_next_id_fresh(p, seen, r);
    crate::filename::lemma_format_parse_roundtrip(name);
    crate::tasks::lemma_task_file_slug_no_dot(name);
    let f = crate::filename::spec_parse_filename(name)->0;
    assert(crate::filename::is_valid_id(r));
    crate::filename::lemma_parse_format_roundtrip(r, f.1, f.2, f.3);
    crate::tasks::lemma_dotless_formatted_is_task_file(r, f.1, f.2, f.3);
    assert(renumbered_name(name, r) == crate::filename::spec_format_filename(r, f.1, f.2, f.3));
}

proof fn lemma_fresh_against(p: int, seen: Seq<Seq<char>>, r: Seq<char>, name: Seq<char>)
    requires
        0 <= p < 100,
        crate::ids::spec_is_next_id(p, seen, r),
        seen.contains(name),
        five_digit_name(name),
    ensures
        name_id(name) != r,
{
    crate::ids::lemma_next_id_fresh(p, seen, r);
    let i = choose|i: int| 0 <= i < seen.len() && seen[i] == name;
    assert(crate::filename::spec_parse_filename(seen[i]) is Some);
}

proof fn lemma_renumber_steps(
    p: int,
    cur: Seq<Seq<char>>,
    losers: Seq<int>,
    ids: Seq<Seq<char>>,
    seen: Seq<Seq<Seq<char>>>,
    k: int,
)
    requires
        0 <= p < 100,
        0 <= k <= losers.len(),
        ids.len() == losers.len(),
        seen.len() == losers.len(),
        losers.no_duplicates(),
        forall|j: int| 0 <= j < losers.len() ==> 0 <= #[trigger] losers[j] < cur.len(),
        forall|i: int|
            0 <= i < cur.len() ==> five_digit_name(#[trigger] cur[i]) && crate::tasks::is_task_file_name(cur[i]),
        forall|a: int, b: int|
            0 <= a < cur.len() && 0 <= b < cur.len() && a != b && !pending_at(losers, 0, a) && !pending_at(
                losers,
                0,
                b,
            ) ==> name_id(#[trigger] cur[a]) != name_id(#[trigger] cur[b]),
        forall|j: int| 0 <= j < losers.len() ==> crate::ids::spec_is_next_id(p, #[trigger] seen[j], ids[j]),
        forall|j: int, i: int|
            0 <= j < losers.len() && 0 <= i < cur.len() ==> seen[j].contains(
                #[trigger] renumbered_after(cur, losers, ids, j)[i],
            ),
    ensures
        renumbered_after(cur, losers, ids, k).len() == cur.len(),
        forall|i: int|
            0 <= i < cur.len() ==> five_digit_name(#[trigger] renumbered_after(cur, losers, ids, k)[i])
                && crate::tasks::is_task_file_name(renumbered_after(cur, losers, ids, k)[i]),
        forall|a: int, b: int|
            0 <= a < cur.len() && 0 <= b < cur.len() && a != b && !pending_at(losers, k, a) && !pending_at(
                losers,
                k,
                b,
            ) ==> name_id(#[trigger] renumbered_after(cur, losers, ids, k)[a]) != name_id(
                #[trigger] renumbered_after(cur, losers, ids, k)[b],
            ),
    decreases k,
{
    if k > 0 {
        lemma_renumber_steps(p, cur, losers, ids, seen, k - 1);
        let s0 = renumbered_after(cur, losers, ids, k - 1);
        let s = renumbered_after(cur, losers, ids, k);
        let x = losers[k - 1];
        let r = ids[k - 1];
        assert(crate::ids::spec_is_next_id(p, seen[k - 1], r));
        assert(five_digit_name(s0[x]));
        lemma_renumber_one(p, s0[x], r, seen[k - 1]);
        assert(s == s0.update(x, renumbered_name(s0[x], r)));
        assert forall|i: int| 0 <= i < cur.len() implies five_digit_name(#[trigger] s[i])
            && crate::tasks::is_task_file_name(s[i]) by {
            if i != x {
                assert(s[i] == s0[i]);
            }
        }
        assert forall|a: int, b: int|
            0 <= a < cur.len() && 0 <= b < cur.len() && a != b && !pending_at(losers, k, a) && !pending_at(
                losers,
                k,
                b,
            ) implies name_id(#[trigger] s[a]) != name_id(#[trigger] s[b]) by {
            if a == x {
                assert(seen[k - 1].contains(s0[b]));
                lemma_fresh_against(p, seen[k - 1], r, s0[b]);
                assert(s[b] == s0[b]);
            } else if b == x {
                assert(seen[k - 1].contains(s0[a]));
                lemma_fresh_against(p, seen[k - 1], r, s0[a]);
                assert(s[a] == s0[a]);
            } else {
                assert(s[a] == s0[a]);
                assert(s[b] == s0[b]);
                if pending_at(losers, k - 1, a) {
                    let j = choose|j: int| k - 1 <= j < losers.len() && #[trigger] losers[j] == a;
                    assert(j != k - 1);
                    assert(pending_at(losers, k, a));
                }
                if pending_at(losers, k - 1, b) {
                    let j = choose|j: int| k - 1 <= j < losers.len() && #[trigger] losers[j] == b;
                    assert(j != k - 1);
                    assert(pending_at(losers, k, b));
                }
            }
        }
    }
}

proof fn lemma_all_task_files(s: Seq<Seq<char>>)
    requires
        forall|i: int| 0 <= i < s.len() ==> crate::tasks::is_task_file_name(#[trigger] s[i]),
    ensures
        crate::tasks::task_names(s) == s,
    decreases s.len(),
{
    if s.len() > 0 {
        let init = s.drop_last();
        assert forall|i: int| 0 <= i < init.len() implies crate::tasks::is_task_file_name(#[trigger] init[i]) by {
            assert(init[i] == s[i]);
        }
        lemma_all_task_files(init);
        assert(crate::tasks::is_task_file_name(s[s.len() - 1]));
        assert(init.push(s.last()) =~= s);
    }
}

proof fn lemma_parsed_ids_all(s: Seq<Seq<char>>)
    requires
        forall|i: int| 0 <= i < s.len() ==> five_digit_name(#[trigger] s[i]),
    ensures
        crate::validate::parsed_ids(s).len() == s.len(),
        forall|i: int| 0 <= i < s.len() ==> #[trigger] crate::validate::parsed_ids(s)[i] == name_id(s[i]),
    decreases s.len(),
{
    if s.len() > 0 {
        let init = s.drop_last();
        assert forall|i: int| 0 <= i < init.len() implies five_digit_name(#[trigger] init[i]) by {
            assert(init[i] == s[i]);
        }
        lemma_parsed_ids_all(init);
        assert(five_digit_name(s[s.len() - 1]));
        assert forall|i: int| 0 <= i < s.len() implies #[trigger] crate::validate::parsed_ids(s)[i] == name_id(s[i]) by {
            if i < init.len() {
                assert(init[i] == s[i]);
            }
        }
    }
}

proof fn lemma_five_digit_permutation(g: Seq<Seq<char>>, h: Seq<Seq<char>>)
    requires
        g.to_multiset() == h.to_multiset(),
        forall|i: int| 0 <= i < g.len() ==> five_digit_name(#[trigger] g[i]),
    ensures
        forall|i: int| 0 <= i < h.len() ==> five_digit_name(#[trigger] h[i]),
{
    broadcast use vstd::seq_lib::group_to_multiset_ensures;

    assert forall|i: int| 0 <= i < h.len() implies five_digit_name(#[trigger] h[i]) by {
        assert(h.contains(h[i]));
        assert(h.to_multiset().count(h[i]) > 0);
        assert(g.to_multiset().count(h[i]) > 0);
        assert(g.contains(h[i]));
        let j = choose|j: int| 0 <= j < g.len() && g[j] == h[i];
        assert(five_digit_name(g[j]));
    }
}

proof fn lemma_no_duplicate_groups(s: Seq<Seq<char>>, files: Seq<Seq<char>>, i: int)
    requires
        0 <= i <= s.len(),
        forall|k: int| i <= k && k + 1 < s.len() ==> #[trigger] s[k] != s[k + 1],
    ensures
        duplicate_groups_from(s, files, i).len() == 0,
    decreases s.len() - i,
{
    if i < s.len() {
        assert(crate::validate::run_end(s, i, i + 1) == i + 1);
        lemma_no_duplicate_groups(s, files, i + 1);
    }
}

/// A fix run without errors leaves a directory that validates and that a
/// second run leaves alone.
///
/// The run first applies the rename plan of the task files `files` for the
/// local bucket `p`: no step fails, and every task file `cur` then lists
/// (in any order, each name once) is the name some file has after its step.
/// It then renumbers duplicates: for each id one file, `winner` of the id,
/// keeps it, and every other file carrying the id is among `losers`
/// (indices into `cur`, each once). The `j`-th renumbering moves the file at
/// `losers[j]` to the id `ids[j]`, which `next_id` allocated from names
/// `seen[j]` that include every task file present at that moment.
///
/// Afterwards validation finds nothing wrong, the rename plan of the
/// resulting task files keeps every file under any prefix, and no id is
/// shared, so a second run renames, migrates and renumbers nothing.
pub proof fn lemma_fix_run_leaves_clean(
    p: int,
    files: Seq<Seq<char>>,
    cur: Seq<Seq<char>>,
    winner: spec_fn(Seq<char>) -> Seq<char>,
    losers: Seq<int>,
    ids: Seq<Seq<char>>,
    seen: Seq<Seq<Seq<char>>>,
)
    requires
        0 <= p < 100,
        forall|i: int|
            0 <= i < files.len() ==> !(#[trigger] spec_fix_plan(crate::text::two_digits(p), files)[i] is Fail),
        forall|i: int|
            0 <= i < cur.len() ==> crate::tasks::is_task_file_name(#[trigger] cur[i]) && exists|j: int|
                0 <= j < files.len() && cur[i] == name_after(
                    files[j],
                    #[trigger] spec_fix_plan(crate::text::two_digits(p), files)[j],
                ),
        cur.no_duplicates(),
        losers.no_duplicates(),
        forall|j: int| 0 <= j < losers.len() ==> 0 <= #[trigger] losers[j] < cur.len(),
        forall|i: int| 0 <= i < cur.len() && #[trigger] cur[i] != winner(name_id(cur[i])) ==> losers.contains(i),
        ids.len() == losers.len(),
        seen.len() == losers.len(),
        forall|j: int| 0 <= j < losers.len() ==> crate::ids::spec_is_next_id(p, #[trigger] seen[j], ids[j]),
        forall|j: int, i: int|
            0 <= j < losers.len() && 0 <= i < cur.len() ==> seen[j].contains(
                #[trigger] renumbered_after(cur, losers, ids, j)[i],
            ),
    ensures
        ({
            let after = crate::tasks::spec_task_files(renumbered_after(cur, losers, ids, losers.len() as int));
            &&& crate::validate::spec_validation_errors(after).len() == 0
            &&& forall|q: Seq<char>, i: int|
                0 <= i < after.len() ==> #[trigger] spec_fix_plan(q, after)[i] == FixStepView::Keep
            &&& spec_duplicate_groups(after).len() == 0
        }),
{
    let prefix = crate::text::two_digits(p);
    lemma_fix_plan_leaves_numeric(p, files);
    assert forall|i: int| 0 <= i < cur.len() implies five_digit_name(#[trigger] cur[i])
        && crate::tasks::is_task_file_name(cur[i]) by {
        let j = choose|j: int| 0 <= j < files.len() && cur[i] == name_after(
            files[j],
            #[trigger] spec_fix_plan(prefix, files)[j],
        );
        assert(!(spec_fix_plan(prefix, files)[j] is Fail));
    }
    assert forall|a: int, b: int|
        0 <= a < cur.len() && 0 <= b < cur.len() && a != b && !pending_at(losers, 0, a) && !pending_at(
            losers,
            0,
            b,
        ) implies name_id(#[trigger] cur[a]) != name_id(#[trigger] cur[b]) by {
        if cur[a] != winner(name_id(cur[a])) {
            assert(losers.contains(a));
            let j = choose|j: int| 0 <= j < losers.len() && losers[j] == a;
            assert(pending_at(losers, 0, a));
        }
        if cur[b] != winner(name_id(cur[b])) {
            assert(losers.contains(b));
            let j = choose|j: int| 0 <= j < losers.len() && losers[j] == b;
            assert(pending_at(losers, 0, b));
        }
    }
    let k = losers.len() as int;
    lemma_renumber_steps(p, cur, losers, ids, seen, k);
    let s = renumbered_after(cur, losers, ids, k);
    assert forall|a: int, b: int| 0 <= a < s.len() && 0 <= b < s.len() && a != b implies name_id(
        #[trigger] s[a],
    ) != name_id(#[trigger] s[b]) by {
        assert(!pending_at(losers, k, a));
        assert(!pending_at(losers, k, b));
    }
    lemma_all_task_files(s);
    let g = crate::order::sort_lex(s);
    assert(crate::tasks::spec_task_files(s) == g);
    lemma_parsed_ids_all(s);
    let ids_s = crate::validate::parsed_ids(s);
    assert(ids_s.no_duplicates()) by {
        assert forall|a: int, b: int| 0 <= a < ids_s.len() && 0 <= b < ids_s.len() && a != b implies ids_s[a]
            != ids_s[b] by {
            assert(ids_s[a] == name_id(s[a]));
            assert(ids_s[b] == name_id(s[b]));
        }
    }
    crate::order::lemma_sort_lex(s);
    let pick = |x: Seq<char>| crate::validate::id_pick(x);
    crate::validate::lemma_parsed_ids_picked(s);
    crate::validate::lemma_parsed_ids_picked(g);
    crate::order::lemma_picked_permutation(s, g, pick);
    crate::validate::lemma_permutation_no_duplicates(ids_s, crate::validate::parsed_ids(g));
    lemma_five_digit_permutation(s, g);
    assert forall|i: int| 0 <= i < s.len() implies #[trigger] crate::filename::spec_parse_filename(s[i]) is Some by {
        assert(five_digit_name(s[i]));
    }
    crate::validate::lemma_all_parse_permutation(s, g);
    crate::validate::lemma_validation_clean_iff(g);
    assert forall|q: Seq<char>, i: int| 0 <= i < g.len() implies #[trigger] spec_fix_plan(q, g)[i] == FixStepView::Keep by {
        lemma_fix_plan_keeps_numeric(q, g);
    }
    let ids_g = crate::validate::parsed_ids(g);
    let sorted = crate::order::sort_lex(ids_g);
    crate::order::lemma_sort_lex(ids_g);
    crate::validate::lemma_permutation_no_duplicates(ids_g, sorted);
    crate::validate::lemma_sorted_adjacent_distinct(sorted);
    lemma_no_duplicate_groups(sorted, g, 0);
}

} // verus!

verus! {

/// The id a step moves its file to when it migrates it into the local
/// bucket; none for any other step.
pub open spec fn migrated_id(step: FixStepView) -> Option<Seq<char>> {
    match step {
        FixStepView::Rename(_, to, migrated) => if migrated {
            Some(name_id(to))
        } else {
            None
        },
        _ => None,
    }
}

proof fn lemma_next_free_unused(used: Seq<u32>, s: u32)
    ensures
        next_free(used, s) <= 999 ==> !used.contains(next_free(used, s)),
    decreases 1000 - s,
{
    if s < 1000 && used.contains(s) {
        lemma_next_free_unused(used, (s + 1) as u32);
    }
}

proof fn lemma_fix_step_migration(p: int, used: Seq<u32>, name: Seq<char>)
    requires
        0 <= p < 100,
    ensures
        ({
            let (step, used2) = fix_step(crate::text::two_digits(p), used, name);
            &&& forall|x: u32| used.contains(x) ==> #[trigger] used2.contains(x)
            &&& migrated_id(step) is Some ==> {
                let id = migrated_id(step)->0;
                &&& crate::ids::id_prefix_of(id) == crate::text::two_digits(p)
                &&& !used.contains(crate::ids::id_seq_of(id))
                &&& used2.contains(crate::ids::id_seq_of(id))
            }
        }),
{
    let prefix = crate::text::two_digits(p);
    match crate::filename::spec_parse_filename(name) {
        None => {},
        Some(f) => {
            crate::filename::lemma_format_parse_roundtrip(name);
            let b = vstd::utf8::encode_utf8(f.0);
            if crate::ids::spec_needs_migration(b) {
                let seq = crate::ids::spec_id_seq(b);
                if seq <= 999 {
                    let s = next_free(used, seq);
                    lemma_next_free_unused(used, seq);
                    if s <= 999 {
                        crate::ids::lemma_numeric_id_parts(p, s as int);
                        let new_id = prefix + crate::text::three_digits(s as int);
                        crate::filename::lemma_parse_format_roundtrip(new_id, f.1, f.2, f.3);
                        let used2 = used.push(s);
                        assert(used2[used.len() as int] == s);
                        assert forall|x: u32| used.contains(x) implies #[trigger] used2.contains(x) by {
                            let q = choose|q: int| 0 <= q < used.len() && used[q] == x;
                            assert(used2[q] == x);
                        }
                    }
                }
            }
        },
    }
}

proof fn lemma_fix_steps_fresh(p: int, used: Seq<u32>, files: Seq<Seq<char>>, i: int)
    requires
        0 <= p < 100,
        0 <= i <= files.len(),
    ensures
        fix_steps_from(crate::text::two_digits(p), used, files, i).len() == files.len() - i,
        forall|k: int|
            0 <= k < files.len() - i && #[trigger] migrated_id(
                fix_steps_from(crate::text::two_digits(p), used, files, i)[k],
            ) is Some ==> {
                let id = migrated_id(fix_steps_from(crate::text::two_digits(p), used, files, i)[k])->0;
                &&& crate::ids::id_prefix_of(id) == crate::text::two_digits(p)
                &&& !used.contains(crate::ids::id_seq_of(id))
            },
        forall|a: int, b: int|
            0 <= a < files.len() - i && 0 <= b < files.len() - i && a != b && #[trigger] migrated_id(
                fix_steps_from(crate::text::two_digits(p), used, files, i)[a],
            ) is Some && #[trigger] migrated_id(fix_steps_from(crate::text::two_digits(p), used, files, i)[b])
                is Some ==> migrated_id(fix_steps_from(crate::text::two_digits(p), used, files, i)[a])
                != migrated_id(fix_steps_from(crate::text::two_digits(p), used, files, i)[b]),
    decreases files.len() - i,
{
    let prefix = crate::text::two_digits(p);
    if i < files.len() {
        let (step, used2) = fix_step(prefix, used, files[i]);
        lemma_fix_step_migration(p, used, files[i]);
        lemma_fix_steps_fresh(p, used2, files, i + 1);
        let rest = fix_steps_from(prefix, used2, files, i + 1);
        let steps = fix_steps_from(prefix, used, files, i);
        assert(steps == seq![step] + rest);
        assert forall|k: int| 1 <= k < steps.len() implies #[trigger] steps[k] == rest[k - 1] by {}
        assert forall|k: int| 0 <= k < files.len() - i && #[trigger] migrated_id(steps[k]) is Some implies {
            let id = migrated_id(steps[k])->0;
            &&& crate::ids::id_prefix_of(id) == prefix
            &&& !used.contains(crate::ids::id_seq_of(id))
        } by {
            if k > 0 {
                assert(steps[k] == rest[k - 1]);
                let id = migrated_id(rest[k - 1])->0;
                assert(!used2.contains(crate::ids::id_seq_of(id)));
                if used.contains(crate::ids::id_seq_of(id)) {
                    assert(used2.contains(crate::ids::id_seq_of(id)));
                }
            }
        }
        assert forall|a: int, b: int|
            0 <= a < files.len() - i && 0 <= b < files.len() - i && a != b && #[trigger] migrated_id(steps[a])
                is Some && #[trigger] migrated_id(steps[b]) is Some implies migrated_id(steps[a]) != migrated_id(
            steps[b],
        ) by {
            if a > 0 && b > 0 {
                assert(steps[a] == rest[a - 1]);
                assert(steps[b] == rest[b - 1]);
            } else if a == 0 {
                assert(steps[b] == rest[b - 1]);
                let x = migrated_id(steps[0])->0;
                let y = migrated_id(rest[b - 1])->0;
                assert(used2.contains(crate::ids::id_seq_of(x)));
                assert(!used2.contains(crate::ids::id_seq_of(y)));
            } else {
                assert(steps[a] == rest[a - 1]);
                let x = migrated_id(steps[0])->0;
                let y = migrated_id(rest[a - 1])->0;
                assert(used2.contains(crate::ids::id_seq_of(x)));
                assert(!used2.contains(crate::ids::id_seq_of(y)));
            }
        }
    }
}

/// Migration never creates a duplicate id: in the rename plan for the local
/// bucket `p`, two files migrated into the bucket get different ids, and no
/// migrated file gets the id of any task file already there (whether that
/// file keeps its name or not), so two legacy files that share a sequence
/// number, or a legacy file whose number a local file already uses, move to
/// the next free numbers.
pub proof fn lemma_fix_plan_migrations_fresh(p: int, files: Seq<Seq<char>>)
    requires
        0 <= p < 100,
    ensures
        spec_fix_plan(crate::text::two_digits(p), files).len() == files.len(),
        forall|a: int, b: int|
            0 <= a < files.len() && 0 <= b < files.len() && a != b && #[trigger] migrated_id(
                spec_fix_plan(crate::text::two_digits(p), files)[a],
            ) is Some && #[trigger] migrated_id(spec_fix_plan(crate::text::two_digits(p), files)[b]) is Some
                ==> migrated_id(spec_fix_plan(crate::text::two_digits(p), files)[a]) != migrated_id(
                spec_fix_plan(crate::text::two_digits(p), files)[b],
            ),
        forall|a: int, j: int|
            0 <= a < files.len() && 0 <= j < files.len() && #[trigger] migrated_id(
                spec_fix_plan(crate::text::two_digits(p), files)[a],
            ) is Some && #[trigger] crate::filename::spec_parse_filename(files[j]) is Some ==> migrated_id(
                spec_fix_plan(crate::text::two_digits(p), files)[a],
            ) != Some(name_id(files[j])),
{
    let prefix = crate::text::two_digits(p);
    let used = crate::ids::seqs_of(files, prefix);
    lemma_fix_steps_fresh(p, used, files, 0);
    let plan = spec_fix_plan(prefix, files);
    assert forall|a: int, j: int|
        0 <= a < files.len() && 0 <= j < files.len() && #[trigger] migrated_id(plan[a]) is Some
            && #[trigger] crate::filename::spec_parse_filename(files[j]) is Some implies migrated_id(plan[a])
        != Some(name_id(files[j])) by {
        let x = migrated_id(plan[a])->0;
        if x == name_id(files[j]) {
            assert(crate::ids::name_seq_in(files[j], prefix) == Some(crate::ids::id_seq_of(x)));
            crate::ids::lemma_seqs_of_contains(files, prefix, j);
            assert(!used.contains(crate::ids::id_seq_of(x)));
        }
    }
}

} // verus!
