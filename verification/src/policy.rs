//! The command policy: glob allow/deny rules over the full command line,
//! beneath a fixed floor of catastrophic commands that is always denied.
use vstd::prelude::*;

use crate::glob::{
    all_plain, any_hit, glob_tests, hit, lemma_tested_answers, named_answers, outcomes, outcomes_of,
    plain, tested, glob_match, GlobTest,
};
use crate::text::join_strings;
use crate::types::{views, SpawnOptions, VoxError};

verus! {

/// The contents of a policy file.
pub struct PolicyFile {
    pub allow: Vec<String>,
    pub deny: Vec<String>,
    pub allow_by_default: bool,
}

/// The default of `allow_by_default` in a policy file.
pub fn default_true() -> (b: bool)
    ensures
        b,
{
    true
}

impl Default for PolicyFile {
    /// The permissive default: no rules, allow by default.
    fn default() -> (p: Self)
        ensures
            p.allow@.len() == 0,
            p.deny@.len() == 0,
            p.allow_by_default,
    {
        PolicyFile { allow: Vec::new(), deny: Vec::new(), allow_by_default: true }
    }
}

/// No floor glob holds a backslash, so the floor's answers are globset's
/// named ones on every plain line.
pub proof fn law_floor_is_plain()
    ensures
        all_plain(floor_patterns()),
{
    assert forall|i: int| 0 <= i < floor_patterns().len() implies plain(#[trigger] floor_patterns()[i]) by {
        reveal_strlit("rm -*[rR]* /");
        reveal_strlit("rm -*[rR]* / *");
        reveal_strlit("rm -*[rR]* /[*]");
        reveal_strlit("rm -*[rR]* ~");
        reveal_strlit("rm -*[rR]* ~/");
        reveal_strlit("rm -*[rR]* ~/[*]");
        reveal_strlit("rm -*[rR]* --no-preserve-root*");
        reveal_strlit("mkfs*");
        reveal_strlit("*/mkfs*");
        reveal_strlit("dd *of=/dev/*");
        reveal_strlit("format *");
        reveal_strlit("format.com *");
        reveal_strlit("diskpart*");
        reveal_strlit("vssadmin* delete *");
        reveal_strlit("*| sh");
        reveal_strlit("*| sh *");
        reveal_strlit("*|sh");
        reveal_strlit("*|sh *");
        reveal_strlit("*| bash");
        reveal_strlit("*| bash *");
        reveal_strlit("*|bash");
        reveal_strlit("*|bash *");
        reveal_strlit("*:()*[{]*:|:&*");
        reveal_strlit("shutdown");
        reveal_strlit("shutdown *");
        reveal_strlit("*/shutdown");
        reveal_strlit("*/shutdown *");
        reveal_strlit("reboot");
        reveal_strlit("reboot *");
        reveal_strlit("*/reboot");
        reveal_strlit("*/reboot *");
    }
}

/// Every `~` in the glob ends it, or is followed by a `/` that ends it, or by
/// `/[*]` (a literal star) that ends it: the glob names the home directory
/// itself, never a path below it.
pub open spec fn spares_below_home(g: Seq<char>) -> bool {
    forall|k: int|
        0 <= k < g.len() && #[trigger] g[k] == '~' ==> {
            ||| k + 1 == g.len()
            ||| g[k + 1] == '/' && k + 2 == g.len()
            ||| g[k + 1] == '/' && k + 5 == g.len() && g[k + 2] == '[' && g[k + 3] == '*'
                && g[k + 4] == ']'
        }
}

/// The floor blocks deleting home itself and spares everything below it: in
/// no floor glob does a wildcard follow `~/`, so a recursive delete of a path
/// such as `~/proj/target` is left to the policy's own rules.
pub proof fn law_floor_spares_below_home()
    ensures
        forall|i: int| 0 <= i < floor_patterns().len() ==> spares_below_home(#[trigger] floor_patterns()[i]),
{
    assert forall|i: int| 0 <= i < floor_patterns().len() implies spares_below_home(#[trigger] floor_patterns()[i]) by {
        reveal_strlit("rm -*[rR]* /");
        reveal_strlit("rm -*[rR]* / *");
        reveal_strlit("rm -*[rR]* /[*]");
        reveal_strlit("rm -*[rR]* ~");
        reveal_strlit("rm -*[rR]* ~/");
        reveal_strlit("rm -*[rR]* ~/[*]");
        reveal_strlit("rm -*[rR]* --no-preserve-root*");
        reveal_strlit("mkfs*");
        reveal_strlit("*/mkfs*");
        reveal_strlit("dd *of=/dev/*");
        reveal_strlit("format *");
        reveal_strlit("format.com *");
        reveal_strlit("diskpart*");
        reveal_strlit("vssadmin* delete *");
        reveal_strlit("*| sh");
        reveal_strlit("*| sh *");
        reveal_strlit("*|sh");
        reveal_strlit("*|sh *");
        reveal_strlit("*| bash");
        reveal_strlit("*| bash *");
        reveal_strlit("*|bash");
        reveal_strlit("*|bash *");
        reveal_strlit("*:()*[{]*:|:&*");
        reveal_strlit("shutdown");
        reveal_strlit("shutdown *");
        reveal_strlit("*/shutdown");
        reveal_strlit("*/shutdown *");
        reveal_strlit("reboot");
        reveal_strlit("reboot *");
        reveal_strlit("*/reboot");
        reveal_strlit("*/reboot *");
    }
}

/// The floor: globs of catastrophic commands, denied whatever the policy
/// says. Recursive deletion of the root or home directory, file-system
/// creation, `dd` onto a device, Windows `format`/`diskpart`/`vssadmin
/// delete`, piping into a shell, the classic fork bomb, and
/// `shutdown`/`reboot`.
pub open spec fn floor_patterns() -> Seq<Seq<char>> {
    seq![
        "rm -*[rR]* /"@,
        "rm -*[rR]* / *"@,
        "rm -*[rR]* /[*]"@,
        "rm -*[rR]* ~"@,
        "rm -*[rR]* ~/"@,
        "rm -*[rR]* ~/[*]"@,
        "rm -*[rR]* --no-preserve-root*"@,
        "mkfs*"@,
        "*/mkfs*"@,
        "dd *of=/dev/*"@,
        "format *"@,
        "format.com *"@,
        "diskpart*"@,
        "vssadmin* delete *"@,
        "*| sh"@,
        "*| sh *"@,
        "*|sh"@,
        "*|sh *"@,
        "*| bash"@,
        "*| bash *"@,
        "*|bash"@,
        "*|bash *"@,
        "*:()*[{]*:|:&*"@,
        "shutdown"@,
        "shutdown *"@,
        "*/shutdown"@,
        "*/shutdown *"@,
        "reboot"@,
        "reboot *"@,
        "*/reboot"@,
        "*/reboot *"@,
    ]
}

/// The floor's globs.
pub fn floor_globs() -> (v: Vec<String>)
    ensures
        views(v@) == floor_patterns(),
{
    let v = vec![
        String::from_str("rm -*[rR]* /"),
        String::from_str("rm -*[rR]* / *"),
        String::from_str("rm -*[rR]* /[*]"),
        String::from_str("rm -*[rR]* ~"),
        String::from_str("rm -*[rR]* ~/"),
        String::from_str("rm -*[rR]* ~/[*]"),
        String::from_str("rm -*[rR]* --no-preserve-root*"),
        String::from_str("mkfs*"),
        String::from_str("*/mkfs*"),
        String::from_str("dd *of=/dev/*"),
        String::from_str("format *"),
        String::from_str("format.com *"),
        String::from_str("diskpart*"),
        String::from_str("vssadmin* delete *"),
        String::from_str("*| sh"),
        String::from_str("*| sh *"),
        String::from_str("*|sh"),
        String::from_str("*|sh *"),
        String::from_str("*| bash"),
        String::from_str("*| bash *"),
        String::from_str("*|bash"),
        String::from_str("*|bash *"),
        String::from_str("*:()*[{]*:|:&*"),
        String::from_str("shutdown"),
        String::from_str("shutdown *"),
        String::from_str("*/shutdown"),
        String::from_str("*/shutdown *"),
        String::from_str("reboot"),
        String::from_str("reboot *"),
        String::from_str("*/reboot"),
        String::from_str("*/reboot *"),
    ];
    assert(views(v@) =~= floor_patterns());
    v
}

/// The abstract state of a policy engine.
pub struct PolicyView {
    pub floor: Seq<Seq<char>>,
    pub allow: Seq<Seq<char>>,
    pub deny: Seq<Seq<char>>,
    pub allow_by_default: bool,
}

/// The line a policy judges: the command, then its arguments, each after a space.
pub open spec fn policy_line(command: Seq<char>, args: Seq<Seq<char>>) -> Seq<char> {
    if args.len() == 0 {
        command
    } else {
        command + seq![' '] + crate::text::join(args, seq![' '])
    }
}

/// What a policy decides of a line, given the outcome of testing the line
/// against each floor, deny and allow glob: `None` when it is allowed, else
/// the text of the denial. The floor and the deny rules win; then
/// allow-by-default or an allow rule lets the line through; anything else is
/// not in the allowlist.
pub open spec fn verdict(
    allow_by_default: bool,
    line: Seq<char>,
    floor: Seq<Option<bool>>,
    deny: Seq<Option<bool>>,
    allow: Seq<Option<bool>>,
) -> Option<Seq<char>> {
    if hit(floor) || hit(deny) {
        Some(line)
    } else if allow_by_default || hit(allow) {
        None
    } else {
        Some(line + " (not in allowlist)"@)
    }
}

/// There is one outcome for each glob of the policy.
pub open spec fn outcomes_fit(
    p: PolicyView,
    floor: Seq<Option<bool>>,
    deny: Seq<Option<bool>>,
    allow: Seq<Option<bool>>,
) -> bool {
    floor.len() == p.floor.len() && deny.len() == p.deny.len() && allow.len() == p.allow.len()
}

/// The globs of the policy and `line` are all plain, so globset's answers are
/// the named ones.
pub open spec fn plain_case(p: PolicyView, line: Seq<char>) -> bool {
    all_plain(p.floor) && all_plain(p.deny) && all_plain(p.allow) && plain(line)
}

/// The verdict on `line` from globset's named answers.
pub open spec fn named_verdict(p: PolicyView, line: Seq<char>) -> Option<Seq<char>> {
    verdict(
        p.allow_by_default,
        line,
        named_answers(p.floor, line),
        named_answers(p.deny, line),
        named_answers(p.allow, line),
    )
}

/// `floor`, `deny` and `allow` are the tests of `line` against the globs of
/// the policy.
pub open spec fn judged(
    p: PolicyView,
    line: Seq<char>,
    floor: Seq<GlobTest>,
    deny: Seq<GlobTest>,
    allow: Seq<GlobTest>,
) -> bool {
    tested(floor, p.floor, line) && tested(deny, p.deny, line) && tested(allow, p.allow, line)
}

/// How the policy judged one line: the line, its tests against the floor,
/// deny and allow globs (in the order of the globs), and the decision.
pub struct Evaluation {
    pub line: String,
    pub floor: Vec<GlobTest>,
    pub deny: Vec<GlobTest>,
    pub allow: Vec<GlobTest>,
    pub verdict: Result<(), VoxError>,
}

/// `r` carries the verdict `v`: `Ok` when it allows, else the denial.
pub open spec fn carries(v: Option<Seq<char>>, r: Result<(), VoxError>) -> bool {
    match r {
        Ok(()) => v is None,
        Err(VoxError::PolicyDenied(m)) => v == Some(m@),
        Err(_) => false,
    }
}

/// `r` lets `opts` through under the verdict `v`: the options unchanged when it
/// allows, else the denial.
pub open spec fn lets_through(v: Option<Seq<char>>, opts: SpawnOptions, r: Result<SpawnOptions, VoxError>) -> bool {
    match r {
        Ok(o) => v is None && o == opts,
        Err(VoxError::PolicyDenied(m)) => v == Some(m@),
        Err(_) => false,
    }
}

/// Allow/deny rules for spawned commands.
pub struct PolicyEngine {
    floor: Vec<String>,
    allow: Vec<String>,
    deny: Vec<String>,
    allow_by_default: bool,
}

impl View for PolicyEngine {
    type V = PolicyView;

    closed spec fn view(&self) -> PolicyView {
        PolicyView {
            floor: views(self.floor@),
            allow: views(self.allow@),
            deny: views(self.deny@),
            allow_by_default: self.allow_by_default,
        }
    }
}

impl PolicyEngine {
    /// An engine with the given rules, above the floor.
    pub fn from_lists(allow: Vec<String>, deny: Vec<String>, allow_by_default: bool) -> (e: Self)
        ensures
            e@ == (PolicyView {
                floor: floor_patterns(),
                allow: views(allow@),
                deny: views(deny@),
                allow_by_default,
            }),
    {
        PolicyEngine { floor: floor_globs(), allow, deny, allow_by_default }
    }

    /// An engine with the rules of a policy file.
    pub fn from_policy(file: PolicyFile) -> (e: Self)
        ensures
            e@ == (PolicyView {
                floor: floor_patterns(),
                allow: views(file.allow@),
                deny: views(file.deny@),
                allow_by_default: file.allow_by_default,
            }),
    {
        Self::from_lists(file.allow, file.deny, file.allow_by_default)
    }

    /// The line a policy judges for `command` and `args`.
    pub fn line_of(command: &str, args: &[String]) -> (line: String)
        ensures
            line@ == policy_line(command@, views(args@)),
    {
        proof {
            reveal_strlit(" ");
            assert(" "@ =~= seq![' ']);
        }
        if args.len() == 0 {
            String::from_str(command)
        } else {
            let joined = join_strings(args, " ");
            String::from_str(command).concat(" ").concat(joined.as_str())
        }
    }

    /// Decides a line from the outcome of testing it against each floor, deny
    /// and allow glob.
    pub fn judge(
        &self,
        line: String,
        floor: &Vec<Option<bool>>,
        deny: &Vec<Option<bool>>,
        allow: &Vec<Option<bool>>,
    ) -> (r: Result<(), VoxError>)
        requires
            outcomes_fit(self@, floor@, deny@, allow@),
        ensures
            carries(verdict(self@.allow_by_default, line@, floor@, deny@, allow@), r),
    {
        if any_hit(floor) || any_hit(deny) {
            return Err(VoxError::PolicyDenied(line));
        }
        if self.allow_by_default || any_hit(allow) {
            return Ok(());
        }
        Err(VoxError::PolicyDenied(line.concat(" (not in allowlist)")))
    }

    /// Tests the full "command arg1 arg2" line against every floor, deny
    /// and allow glob, and decides from the answers.
    pub fn evaluate(&self, command: &str, args: &[String]) -> (e: Evaluation)
        ensures
            e.line@ == policy_line(command@, views(args@)),
            tested(e.floor@, self@.floor, e.line@),
            tested(e.deny@, self@.deny, e.line@),
            tested(e.allow@, self@.allow, e.line@),
            carries(
                verdict(
                    self@.allow_by_default,
                    e.line@,
                    outcomes(e.floor@),
                    outcomes(e.deny@),
                    outcomes(e.allow@),
                ),
                e.verdict,
            ),
            plain_case(self@, e.line@) ==> carries(named_verdict(self@, e.line@), e.verdict),
    {
        let line = Self::line_of(command, args);
        let floor = glob_tests(&self.floor, line.as_str());
        let deny = glob_tests(&self.deny, line.as_str());
        let allow = glob_tests(&self.allow, line.as_str());
        let verdict = self.judge(
            line.clone(),
            &outcomes_of(&floor),
            &outcomes_of(&deny),
            &outcomes_of(&allow),
        );
        proof {
            if plain_case(self@, line@) {
                lemma_tested_answers(floor@, self@.floor, line@);
                lemma_tested_answers(deny@, self@.deny, line@);
                lemma_tested_answers(allow@, self@.allow, line@);
            }
        }
        Evaluation { line, floor, deny, allow, verdict }
    }

    /// Match against the full "command arg1 arg2" line: the decision of
    /// `evaluate`, over the tests of that line against the engine's globs.
    pub fn check(&self, command: &str, args: &[String]) -> (r: Result<(), VoxError>)
        ensures
            exists|floor: Seq<GlobTest>, deny: Seq<GlobTest>, allow: Seq<GlobTest>|
                judged(self@, policy_line(command@, views(args@)), floor, deny, allow)
                    && carries(
                    #[trigger] verdict(
                        self@.allow_by_default,
                        policy_line(command@, views(args@)),
                        outcomes(floor),
                        outcomes(deny),
                        outcomes(allow),
                    ),
                    r,
                ),
            plain_case(self@, policy_line(command@, views(args@))) ==> carries(
                named_verdict(self@, policy_line(command@, views(args@))),
                r,
            ),
    {
        let e = self.evaluate(command, args);
        proof {
            assert(judged(self@, e.line@, e.floor@, e.deny@, e.allow@));
        }
        e.verdict
    }

    /// Lets a spawn through only when the policy allows its command line: a
    /// denied command is never handed on to be spawned.
    pub fn screen_spawn(&self, opts: SpawnOptions) -> (r: Result<SpawnOptions, VoxError>)
        ensures
            exists|floor: Seq<GlobTest>, deny: Seq<GlobTest>, allow: Seq<GlobTest>|
                judged(self@, policy_line(opts.command@, views(opts.args@)), floor, deny, allow)
                    && lets_through(
                    #[trigger] verdict(
                        self@.allow_by_default,
                        policy_line(opts.command@, views(opts.args@)),
                        outcomes(floor),
                        outcomes(deny),
                        outcomes(allow),
                    ),
                    opts,
                    r,
                ),
            plain_case(self@, policy_line(opts.command@, views(opts.args@))) ==> lets_through(
                named_verdict(self@, policy_line(opts.command@, views(opts.args@))),
                opts,
                r,
            ),
    {
        let e = self.evaluate(opts.command.as_str(), opts.args.as_slice());
        let ghost v = verdict(
            self@.allow_by_default,
            e.line@,
            outcomes(e.floor@),
            outcomes(e.deny@),
            outcomes(e.allow@),
        );
        proof {
            assert(judged(self@, e.line@, e.floor@, e.deny@, e.allow@));
        }
        proof {
            if plain_case(self@, e.line@) {
                assert(carries(named_verdict(self@, e.line@), e.verdict));
            }
        }
        match e.verdict {
            Ok(()) => {
                assert(lets_through(v, opts, Ok(opts)));
                Ok(opts)
            },
            Err(err) => {
                assert(lets_through(v, opts, Err(err)));
                Err(err)
            },
        }
    }
}

// ---------------------------------------------------------------------------
// Laws
// ---------------------------------------------------------------------------

/// Deny rules always win: a line that the floor or a deny rule matches is
/// denied, whatever the allow rules and the default say.
pub proof fn law_deny_always_wins(
    allow_by_default: bool,
    line: Seq<char>,
    floor: Seq<Option<bool>>,
    deny: Seq<Option<bool>>,
    allow: Seq<Option<bool>>,
)
    requires
        hit(floor) || hit(deny),
    ensures
        verdict(allow_by_default, line, floor, deny, allow) == Some(line),
{
}

/// The floor always denies: on a plain line, if globset matches one floor glob
/// against it, the policy denies the line, whatever its rules and default.
pub proof fn law_floor_always_denies(p: PolicyView, line: Seq<char>, i: int)
    requires
        plain_case(p, line),
        0 <= i < p.floor.len(),
        glob_match(p.floor[i], false, line) == Some(true),
    ensures
        named_verdict(p, line) == Some(line),
{
    assert(named_answers(p.floor, line)[i] == Some(true));
}

/// With allow-by-default, exactly the lines that no floor or deny rule matches
/// are allowed.
pub proof fn law_allow_by_default(
    line: Seq<char>,
    floor: Seq<Option<bool>>,
    deny: Seq<Option<bool>>,
    allow: Seq<Option<bool>>,
)
    ensures
        (verdict(true, line, floor, deny, allow) is None) <==> !(hit(floor) || hit(deny)),
{
}

/// Without allow-by-default, a line passes only if an allow rule matches it,
/// and one that passes no rule is reported as not in the allowlist.
pub proof fn law_deny_by_default(
    line: Seq<char>,
    floor: Seq<Option<bool>>,
    deny: Seq<Option<bool>>,
    allow: Seq<Option<bool>>,
)
    ensures
        (verdict(false, line, floor, deny, allow) is None) ==> hit(allow),
        !hit(floor) && !hit(deny) && !hit(allow) ==> verdict(false, line, floor, deny, allow)
            == Some(line + " (not in allowlist)"@),
{
}

/// A policy with allow-by-default off and no allow rule lets nothing through.
pub proof fn law_empty_allowlist_denies_all(
    line: Seq<char>,
    floor: Seq<Option<bool>>,
    deny: Seq<Option<bool>>,
    allow: Seq<Option<bool>>,
)
    requires
        allow.len() == 0,
    ensures
        verdict(false, line, floor, deny, allow) is Some,
{
}

} // verus!
