//! The thin command-line client: argument parsing, command selection, and
//! the messages the commands print. Reading the environment and talking to
//! the server stay with the caller.
use vstd::prelude::*;
use vstd::string::StrSliceExecFns;
use vstd::string::StringExecFns;

verus! {

/// A registered flag: a plain switch, or one that expects a value.
pub enum FlagType {
    Boolean,
    Value(Option<String>),
}

/// Model of a flag.
pub ghost enum FlagView {
    Boolean,
    Value(Option<Seq<char>>),
}

impl View for FlagType {
    type V = FlagView;

    open spec fn view(&self) -> FlagView {
        match self {
            FlagType::Boolean => FlagView::Boolean,
            FlagType::Value(v) => FlagView::Value(v.deep_view()),
        }
    }
}

/// The first flag registered under the name, if any.
pub open spec fn flag_lookup(flags: Seq<(Seq<char>, FlagView)>, key: Seq<char>) -> Option<
    FlagView,
>
    decreases flags.len(),
{
    if flags.len() == 0 {
        None
    } else if flags[0].0 == key {
        Some(flags[0].1)
    } else {
        flag_lookup(flags.drop_first(), key)
    }
}

/// Replaces the first flag under the name, or appends.
pub open spec fn upsert_flag(
    flags: Seq<(Seq<char>, FlagView)>,
    key: Seq<char>,
    v: FlagView,
) -> Seq<(Seq<char>, FlagView)>
    decreases flags.len(),
{
    if flags.len() == 0 {
        seq![(key, v)]
    } else if flags[0].0 == key {
        seq![(key, v)] + flags.drop_first()
    } else {
        seq![flags[0]] + upsert_flag(flags.drop_first(), key, v)
    }
}

/// The parser's whole state while it walks the arguments.
pub ghost struct ParseState {
    pub flags: Seq<(Seq<char>, FlagView)>,
    pub commands: Seq<Seq<char>>,
    pub pending: Option<Seq<char>>,
}

/// One argument's effect: a value owed to the previous flag, a `--` flag
/// that is either registered as value-taking or recorded as a switch, or a
/// plain command word.
pub open spec fn parse_one(st: ParseState, arg: Seq<char>) -> ParseState {
    if st.pending is Some {
        ParseState {
            flags: upsert_flag(st.flags, st.pending.unwrap(), FlagView::Value(Some(arg))),
            commands: st.commands,
            pending: None,
        }
    } else if arg.len() >= 2 && arg.subrange(0, 2) == "--"@ {
        let name = arg.skip(2);
        if flag_lookup(st.flags, name) matches Some(FlagView::Value(_)) {
            ParseState { flags: st.flags, commands: st.commands, pending: Some(name) }
        } else {
            ParseState {
                flags: upsert_flag(st.flags, name, FlagView::Boolean),
                commands: st.commands,
                pending: None,
            }
        }
    } else {
        ParseState { flags: st.flags, commands: st.commands.push(arg), pending: None }
    }
}

pub open spec fn parse_all(st: ParseState, args: Seq<Seq<char>>) -> ParseState
    decreases args.len(),
{
    if args.len() == 0 {
        st
    } else {
        parse_all(parse_one(st, args[0]), args.drop_first())
    }
}

pub proof fn lemma_parse_all_push(st: ParseState, args: Seq<Seq<char>>, a: Seq<char>)
    ensures
        parse_all(st, args.push(a)) == parse_one(parse_all(st, args), a),
    decreases args.len(),
{
    if args.len() == 0 {
        assert(args.push(a).drop_first() =~= Seq::<Seq<char>>::empty());
        assert(args.push(a)[0] == a);
    } else {
        assert(args.push(a).drop_first() =~= args.drop_first().push(a));
        assert(args.push(a)[0] == args[0]);
        lemma_parse_all_push(parse_one(st, args[0]), args.drop_first(), a);
    }
}

/// Collects flags and command words from an argument list handed in by the
/// caller.
pub struct ArgsParser {
    pub commands: Vec<String>,
    flags: Vec<(String, FlagType)>,
}

impl ArgsParser {
    pub closed spec fn flags_view(&self) -> Seq<(Seq<char>, FlagView)> {
        Seq::new(self.flags@.len(), |i: int| (self.flags@[i].0@, self.flags@[i].1@))
    }

    pub closed spec fn commands_view(&self) -> Seq<Seq<char>> {
        self.commands.deep_view()
    }

    pub fn new() -> (r: ArgsParser)
        ensures
            r.commands_view() == Seq::<Seq<char>>::empty(),
            r.flags_view() == Seq::<(Seq<char>, FlagView)>::empty(),
    {
        let r = ArgsParser { commands: Vec::new(), flags: Vec::new() };
        proof {
            assert(r.commands_view() =~= Seq::<Seq<char>>::empty());
            assert(r.flags_view() =~= Seq::<(Seq<char>, FlagView)>::empty());
        }
        r
    }

    fn set_flag(&mut self, name: String, value: FlagType)
        ensures
            final(self).flags_view() == upsert_flag(old(self).flags_view(), name@, value@),
            final(self).commands_view() == old(self).commands_view(),
    {
        let ghost gname = name@;
        let ghost gval = value@;
        let mut i: usize = 0;
        loop
            invariant
                i <= self.flags.len(),
                self.flags_view() == old(self).flags_view(),
                self.commands_view() == old(self).commands_view(),
                gname == name@,
                gval == value@,
                forall|k: int| 0 <= k < i ==> old(self).flags_view()[k].0 != gname,
            decreases self.flags.len() - i,
        {
            if i == self.flags.len() {
                self.flags.push((name, value));
                proof {
                    lemma_upsert_flag_absent(old(self).flags_view(), gname, gval);
                    assert(self.flags_view() =~= old(self).flags_view().push((gname, gval)));
                }
                return;
            }
            proof {
                assert(self.flags_view()[i as int].0 == self.flags@[i as int].0@);
            }
            if self.flags[i].0 == name {
                self.flags.set(i, (name, value));
                proof {
                    lemma_upsert_flag_at(old(self).flags_view(), gname, gval, i as int);
                    assert(self.flags_view() =~= old(self).flags_view().update(i as int, (
                        gname, gval)));
                }
                return;
            }
            i = i + 1;
        }
    }

    /// Registers a value-taking flag with no value yet.
    pub fn arg_str(&mut self, name: &str)
        ensures
            final(self).flags_view() == upsert_flag(old(self).flags_view(), name@,
                FlagView::Value(None)),
            final(self).commands_view() == old(self).commands_view(),
    {
        self.set_flag(name.to_owned(), FlagType::Value(None));
    }

    /// Registers a value-taking flag with a default value.
    pub fn arg_str_default(&mut self, name: &str, value: &str)
        ensures
            final(self).flags_view() == upsert_flag(old(self).flags_view(), name@,
                FlagView::Value(Some(value@))),
            final(self).commands_view() == old(self).commands_view(),
    {
        self.set_flag(name.to_owned(), FlagType::Value(Some(value.to_owned())));
    }

    /// Walks the argument list: values bind to the preceding value-taking
    /// flag, `--` words become flags, everything else is a command word. The
    /// command list starts afresh; a trailing value-taking flag without a
    /// value is dropped.
    pub fn parse(&mut self, args: Vec<String>)
        ensures
            ({
                let st0 = ParseState {
                    flags: old(self).flags_view(),
                    commands: Seq::empty(),
                    pending: None,
                };
                let st = parse_all(st0, args.deep_view());
                final(self).flags_view() == st.flags && final(self).commands_view()
                    == st.commands
            }),
    {
        self.commands = Vec::new();
        let ghost st0 = ParseState {
            flags: old(self).flags_view(),
            commands: Seq::empty(),
            pending: None,
        };
        let mut store_arg_value: Option<String> = None;
        proof {
            assert(args.deep_view().take(0) =~= Seq::<Seq<char>>::empty());
            assert(self.commands_view() =~= Seq::<Seq<char>>::empty());
        }
        let mut i: usize = 0;
        while i < args.len()
            invariant
                i <= args.len(),
                ({
                    let st = parse_all(st0, args.deep_view().take(i as int));
                    &&& self.flags_view() == st.flags
                    &&& self.commands_view() == st.commands
                    &&& store_arg_value.deep_view() == st.pending
                }),
            decreases args.len() - i,
        {
            let arg = args[i].clone();
            let ghost garg = arg@;
            let ghost st_pre = parse_all(st0, args.deep_view().take(i as int));
            if let Some(key) = store_arg_value {
                self.set_flag(key, FlagType::Value(Some(arg)));
                store_arg_value = None;
            } else {
                let n = arg.as_str().unicode_len();
                let is_flag_word = n >= 2 && arg.as_str().get_char(0) == '-'
                    && arg.as_str().get_char(1) == '-';
                proof {
                    reveal_strlit("--");
                    if is_flag_word {
                        assert(garg.subrange(0, 2) =~= "--"@);
                    } else {
                        if garg.len() >= 2 && garg.subrange(0, 2) == "--"@ {
                            assert(garg[0] == garg.subrange(0, 2)[0]);
                            assert(garg[1] == garg.subrange(0, 2)[1]);
                            assert(false);
                        }
                    }
                }
                if is_flag_word {
                    let arg_name = arg.as_str().substring_char(2, n);
                    let wanted = arg_name.to_owned();
                    let is_value_flag = self.lookup_is_value(&wanted);
                    if is_value_flag {
                        store_arg_value = Some(wanted);
                    } else {
                        self.set_flag(wanted, FlagType::Boolean);
                        store_arg_value = None;
                    }
                } else {
                    self.commands.push(arg);
                    store_arg_value = None;
                    proof {
                        assert(self.commands_view() =~= st_pre.commands.push(garg));
                    }
                }
            }
            proof {
                let av = args.deep_view();
                assert(av.take(i as int).push(av[i as int]) =~= av.take(i + 1));
                lemma_parse_all_push(st0, av.take(i as int), av[i as int]);
                assert(av[i as int] == garg);
            }
            i = i + 1;
        }
        proof {
            assert(args.deep_view().take(args.len() as int) =~= args.deep_view());
        }
    }

    /// Whether the name is registered as a value-taking flag.
    fn lookup_is_value(&self, key: &String) -> (r: bool)
        ensures
            r == (flag_lookup(self.flags_view(), key@) matches Some(FlagView::Value(_))),
    {
        let ghost fv = self.flags_view();
        let mut j: usize = 0;
        proof {
            assert(fv.skip(0) =~= fv);
        }
        loop
            invariant
                j <= self.flags.len(),
                fv == self.flags_view(),
                flag_lookup(fv, key@) == flag_lookup(fv.skip(j as int), key@),
            decreases self.flags.len() - j,
        {
            if j == self.flags.len() {
                proof {
                    assert(fv.skip(j as int) =~= Seq::<(Seq<char>, FlagView)>::empty());
                }
                return false;
            }
            proof {
                assert(fv.skip(j as int)[0] == fv[j as int]);
                assert(fv[j as int].0 == self.flags@[j as int].0@);
            }
            if self.flags[j].0 == *key {
                return match &self.flags[j].1 {
                    FlagType::Value(_) => true,
                    FlagType::Boolean => false,
                };
            }
            proof {
                assert(fv.skip(j as int).drop_first() =~= fv.skip(j + 1));
            }
            j = j + 1;
        }
    }

    /// Whether the flag was seen, as a switch or with a value.
    pub fn is_flag(&self, key: &str) -> (r: bool)
        ensures
            r == (flag_lookup(self.flags_view(), key@) matches Some(f) && (f is Boolean || (
            f matches FlagView::Value(v) && v is Some))),
    {
        let wanted = key.to_owned();
        let ghost fv = self.flags_view();
        let mut j: usize = 0;
        proof {
            assert(fv.skip(0) =~= fv);
        }
        loop
            invariant
                j <= self.flags.len(),
                fv == self.flags_view(),
                wanted@ == key@,
                flag_lookup(fv, key@) == flag_lookup(fv.skip(j as int), key@),
            decreases self.flags.len() - j,
        {
            if j == self.flags.len() {
                proof {
                    assert(fv.skip(j as int) =~= Seq::<(Seq<char>, FlagView)>::empty());
                }
                return false;
            }
            proof {
                assert(fv.skip(j as int)[0] == fv[j as int]);
                assert(fv[j as int].0 == self.flags@[j as int].0@);
            }
            if self.flags[j].0 == wanted {
                return match &self.flags[j].1 {
                    FlagType::Boolean => true,
                    FlagType::Value(Some(_)) => true,
                    FlagType::Value(None) => false,
                };
            }
            proof {
                assert(fv.skip(j as int).drop_first() =~= fv.skip(j + 1));
            }
            j = j + 1;
        }
    }

    /// The flag's value, when one was seen.
    pub fn get_flag(&self, key: &str) -> (r: Option<String>)
        ensures
            r.deep_view() == (match flag_lookup(self.flags_view(), key@) {
                Some(FlagView::Value(v)) => v,
                _ => None,
            }),
    {
        let wanted = key.to_owned();
        let ghost fv = self.flags_view();
        let mut j: usize = 0;
        proof {
            assert(fv.skip(0) =~= fv);
        }
        loop
            invariant
                j <= self.flags.len(),
                fv == self.flags_view(),
                wanted@ == key@,
                flag_lookup(fv, key@) == flag_lookup(fv.skip(j as int), key@),
            decreases self.flags.len() - j,
        {
            if j == self.flags.len() {
                proof {
                    assert(fv.skip(j as int) =~= Seq::<(Seq<char>, FlagView)>::empty());
                }
                return None;
            }
            proof {
                assert(fv.skip(j as int)[0] == fv[j as int]);
                assert(fv[j as int].0 == self.flags@[j as int].0@);
            }
            if self.flags[j].0 == wanted {
                return match &self.flags[j].1 {
                    FlagType::Value(Some(v)) => Some(v.clone()),
                    _ => None,
                };
            }
            proof {
                assert(fv.skip(j as int).drop_first() =~= fv.skip(j + 1));
            }
            j = j + 1;
        }
    }

    /// Removes and hands back the next command word, if any.
    pub fn serve_command(&mut self) -> (r: Option<String>)
        ensures
            final(self).flags_view() == old(self).flags_view(),
            old(self).commands_view().len() == 0 ==> r is None && final(self).commands_view()
                == old(self).commands_view(),
            old(self).commands_view().len() > 0 ==> r is Some && r.unwrap()@ == old(
                self).commands_view()[0] && final(self).commands_view() == old(
                self).commands_view().drop_first(),
    {
        if self.commands.len() > 0 {
            let c = self.commands.remove(0);
            proof {
                assert(self.commands_view() =~= old(self).commands_view().drop_first());
            }
            Some(c)
        } else {
            None
        }
    }
}

proof fn lemma_upsert_flag_at(
    flags: Seq<(Seq<char>, FlagView)>,
    key: Seq<char>,
    v: FlagView,
    i: int,
)
    requires
        0 <= i < flags.len(),
        flags[i].0 == key,
        forall|k: int| 0 <= k < i ==> flags[k].0 != key,
    ensures
        upsert_flag(flags, key, v) == flags.update(i, (key, v)),
    decreases i,
{
    if i == 0 {
        assert(upsert_flag(flags, key, v) == seq![(key, v)] + flags.drop_first());
        assert(seq![(key, v)] + flags.drop_first() =~= flags.update(0, (key, v)));
    } else {
        assert(flags[0].0 != key);
        assert(flags.drop_first()[i - 1].0 == key);
        assert forall|k: int| 0 <= k < i - 1 implies flags.drop_first()[k].0 != key by {
            assert(flags.drop_first()[k] == flags[k + 1]);
        }
        lemma_upsert_flag_at(flags.drop_first(), key, v, i - 1);
        assert(seq![flags[0]] + flags.drop_first().update(i - 1, (key, v)) =~= flags.update(i,
            (key, v)));
    }
}

proof fn lemma_upsert_flag_absent(flags: Seq<(Seq<char>, FlagView)>, key: Seq<char>, v: FlagView)
    requires
        forall|k: int| 0 <= k < flags.len() ==> flags[k].0 != key,
    ensures
        upsert_flag(flags, key, v) == flags.push((key, v)),
    decreases flags.len(),
{
    if flags.len() == 0 {
        assert(upsert_flag(flags, key, v) =~= flags.push((key, v)));
    } else {
        assert forall|k: int| 0 <= k < flags.drop_first().len() implies flags.drop_first()[k].0
            != key by {
            assert(flags.drop_first()[k] == flags[k + 1]);
        }
        lemma_upsert_flag_absent(flags.drop_first(), key, v);
        assert(seq![flags[0]] + flags.drop_first().push((key, v)) =~= flags.push((key, v)));
    }
}

/// A command the client understands.
pub enum CliCommand {
    HealthCheck(HealthCheckCommand),
    NotFound(CommandNotFound),
}

/// Model of a command: which one it is, and the word a not-found command
/// carries.
pub ghost enum CliCommandView {
    HealthCheck,
    NotFound(Seq<char>),
}

impl View for CliCommand {
    type V = CliCommandView;

    open spec fn view(&self) -> CliCommandView {
        match self {
            CliCommand::HealthCheck(_) => CliCommandView::HealthCheck,
            CliCommand::NotFound(c) => CliCommandView::NotFound(c.spec_name()),
        }
    }
}

/// The first command bound to the name, if any.
pub open spec fn command_lookup(
    bindings: Seq<(Seq<char>, CliCommandView)>,
    key: Seq<char>,
) -> Option<CliCommandView>
    decreases bindings.len(),
{
    if bindings.len() == 0 {
        None
    } else if bindings[0].0 == key {
        Some(bindings[0].1)
    } else {
        command_lookup(bindings.drop_first(), key)
    }
}

/// Replaces the first binding under the name, or appends.
pub open spec fn upsert_command(
    bindings: Seq<(Seq<char>, CliCommandView)>,
    key: Seq<char>,
    v: CliCommandView,
) -> Seq<(Seq<char>, CliCommandView)>
    decreases bindings.len(),
{
    if bindings.len() == 0 {
        seq![(key, v)]
    } else if bindings[0].0 == key {
        seq![(key, v)] + bindings.drop_first()
    } else {
        seq![bindings[0]] + upsert_command(bindings.drop_first(), key, v)
    }
}

/// Removes the first binding under the name, if any.
pub open spec fn remove_command(
    bindings: Seq<(Seq<char>, CliCommandView)>,
    key: Seq<char>,
) -> Seq<(Seq<char>, CliCommandView)>
    decreases bindings.len(),
{
    if bindings.len() == 0 {
        bindings
    } else if bindings[0].0 == key {
        bindings.drop_first()
    } else {
        seq![bindings[0]] + remove_command(bindings.drop_first(), key)
    }
}

proof fn lemma_upsert_command_at(
    bindings: Seq<(Seq<char>, CliCommandView)>,
    key: Seq<char>,
    v: CliCommandView,
    i: int,
)
    requires
        0 <= i < bindings.len(),
        bindings[i].0 == key,
        forall|k: int| 0 <= k < i ==> bindings[k].0 != key,
    ensures
        upsert_command(bindings, key, v) == bindings.update(i, (key, v)),
    decreases i,
{
    if i == 0 {
        assert(upsert_command(bindings, key, v) == seq![(key, v)] + bindings.drop_first());
        assert(seq![(key, v)] + bindings.drop_first() =~= bindings.update(0, (key, v)));
    } else {
        assert(bindings[0].0 != key);
        assert(bindings.drop_first()[i - 1].0 == key);
        assert forall|k: int| 0 <= k < i - 1 implies bindings.drop_first()[k].0 != key by {
            assert(bindings.drop_first()[k] == bindings[k + 1]);
        }
        lemma_upsert_command_at(bindings.drop_first(), key, v, i - 1);
        assert(seq![bindings[0]] + bindings.drop_first().update(i - 1, (key, v))
            =~= bindings.update(i, (key, v)));
    }
}

proof fn lemma_upsert_command_absent(
    bindings: Seq<(Seq<char>, CliCommandView)>,
    key: Seq<char>,
    v: CliCommandView,
)
    requires
        forall|k: int| 0 <= k < bindings.len() ==> bindings[k].0 != key,
    ensures
        upsert_command(bindings, key, v) == bindings.push((key, v)),
    decreases bindings.len(),
{
    if bindings.len() == 0 {
        assert(upsert_command(bindings, key, v) =~= bindings.push((key, v)));
    } else {
        assert forall|k: int| 0 <= k < bindings.drop_first().len() implies bindings
            .drop_first()[k].0 != key by {
            assert(bindings.drop_first()[k] == bindings[k + 1]);
        }
        lemma_upsert_command_absent(bindings.drop_first(), key, v);
        assert(seq![bindings[0]] + bindings.drop_first().push((key, v)) =~= bindings.push((
            key, v)));
    }
}

proof fn lemma_remove_command_at(
    bindings: Seq<(Seq<char>, CliCommandView)>,
    key: Seq<char>,
    i: int,
)
    requires
        0 <= i < bindings.len(),
        bindings[i].0 == key,
        forall|k: int| 0 <= k < i ==> bindings[k].0 != key,
    ensures
        remove_command(bindings, key) == bindings.remove(i),
        command_lookup(bindings, key) == Some(bindings[i].1),
    decreases i,
{
    if i == 0 {
        assert(remove_command(bindings, key) == bindings.drop_first());
        assert(bindings.drop_first() =~= bindings.remove(0));
    } else {
        assert(bindings[0].0 != key);
        assert(bindings.drop_first()[i - 1].0 == key);
        assert forall|k: int| 0 <= k < i - 1 implies bindings.drop_first()[k].0 != key by {
            assert(bindings.drop_first()[k] == bindings[k + 1]);
        }
        lemma_remove_command_at(bindings.drop_first(), key, i - 1);
        assert(seq![bindings[0]] + bindings.drop_first().remove(i - 1) =~= bindings.remove(i));
        assert(bindings.drop_first()[i - 1] == bindings[i]);
    }
}

proof fn lemma_command_lookup_absent(
    bindings: Seq<(Seq<char>, CliCommandView)>,
    key: Seq<char>,
)
    requires
        forall|k: int| 0 <= k < bindings.len() ==> bindings[k].0 != key,
    ensures
        command_lookup(bindings, key) is None,
    decreases bindings.len(),
{
    if bindings.len() > 0 {
        assert forall|k: int| 0 <= k < bindings.drop_first().len() implies bindings
            .drop_first()[k].0 != key by {
            assert(bindings.drop_first()[k] == bindings[k + 1]);
        }
        lemma_command_lookup_absent(bindings.drop_first(), key);
    }
}

/// Picks the command registered under a name, falling back to the
/// not-found command.
pub struct SelectCommand {
    commands: Vec<(String, CliCommand)>,
}

impl SelectCommand {
    pub closed spec fn bindings_view(&self) -> Seq<(Seq<char>, CliCommandView)> {
        Seq::new(self.commands@.len(), |i: int| (self.commands@[i].0@, self.commands@[i].1@))
    }

    pub fn new() -> (r: SelectCommand)
        ensures
            r.bindings_view() == Seq::<(Seq<char>, CliCommandView)>::empty(),
    {
        let r = SelectCommand { commands: Vec::new() };
        proof {
            assert(r.bindings_view() =~= Seq::<(Seq<char>, CliCommandView)>::empty());
        }
        r
    }

    /// Binds the name to the command, replacing any earlier binding under
    /// that name; other bindings are untouched.
    pub fn command(&mut self, command_str: &str, command: CliCommand)
        ensures
            final(self).bindings_view() == upsert_command(old(self).bindings_view(),
                command_str@, command@),
    {
        let ghost gkey = command_str@;
        let ghost gval = command@;
        let wanted = command_str.to_owned();
        let mut j: usize = 0;
        loop
            invariant
                j <= self.commands.len(),
                self.bindings_view() == old(self).bindings_view(),
                wanted@ == gkey,
                gkey == command_str@,
                gval == command@,
                forall|k: int| 0 <= k < j ==> old(self).bindings_view()[k].0 != gkey,
            decreases self.commands.len() - j,
        {
            if j == self.commands.len() {
                self.commands.push((wanted, command));
                proof {
                    lemma_upsert_command_absent(old(self).bindings_view(), gkey, gval);
                    assert(self.bindings_view() =~= old(self).bindings_view().push((gkey,
                        gval)));
                }
                return;
            }
            proof {
                assert(self.bindings_view()[j as int].0 == self.commands@[j as int].0@);
            }
            if self.commands[j].0 == wanted {
                self.commands.set(j, (wanted, command));
                proof {
                    lemma_upsert_command_at(old(self).bindings_view(), gkey, gval, j as int);
                    assert(self.bindings_view() =~= old(self).bindings_view().update(
                        j as int, (gkey, gval)));
                }
                return;
            }
            j = j + 1;
        }
    }

    /// Removes and hands back the command bound to the name, so that a
    /// second selection no longer finds it; an unbound name comes back as
    /// the not-found command carrying that name.
    pub fn select(&mut self, command: &str) -> (r: CliCommand)
        ensures
            command_lookup(old(self).bindings_view(), command@) is None ==> r@
                == CliCommandView::NotFound(command@) && final(self).bindings_view()
                == old(self).bindings_view(),
            command_lookup(old(self).bindings_view(), command@) matches Some(c) ==> r@ == c
                && final(self).bindings_view() == remove_command(old(self).bindings_view(),
                command@),
    {
        let ghost gkey = command@;
        let wanted = command.to_owned();
        let mut j: usize = 0;
        loop
            invariant
                j <= self.commands.len(),
                self.bindings_view() == old(self).bindings_view(),
                wanted@ == gkey,
                gkey == command@,
                forall|k: int| 0 <= k < j ==> old(self).bindings_view()[k].0 != gkey,
            decreases self.commands.len() - j,
        {
            if j == self.commands.len() {
                proof {
                    lemma_command_lookup_absent(old(self).bindings_view(), gkey);
                }
                return CliCommand::NotFound(CommandNotFound::new(command));
            }
            proof {
                assert(self.bindings_view()[j as int].0 == self.commands@[j as int].0@);
                assert(self.bindings_view()[j as int].1 == self.commands@[j as int].1@);
            }
            if self.commands[j].0 == wanted {
                let (_, c) = self.commands.remove(j);
                proof {
                    lemma_remove_command_at(old(self).bindings_view(), gkey, j as int);
                    assert(self.bindings_view() =~= old(self).bindings_view().remove(
                        j as int));
                }
                return c;
            }
            j = j + 1;
        }
    }
}

/// Probes the server's health endpoint; the request itself is the caller's
/// concern, which reports through `report`.
pub struct HealthCheckCommand {}

impl HealthCheckCommand {
    pub fn new() -> HealthCheckCommand {
        HealthCheckCommand {}
    }

    /// The line printed for a reachable server's name, or for no answer.
    pub fn report(&self, name: Option<&String>) -> (r: String)
        ensures
            name is Some ==> r@ == "Successfully connected to "@ + name.unwrap()@,
            name is None ==> r@ == "Could not connect to server"@,
    {
        match name {
            Some(n) => {
                let mut s = "Successfully connected to ".to_owned();
                s.append(n.as_str());
                s
            },
            None => "Could not connect to server".to_owned(),
        }
    }

    /// The line printed for a base address that does not parse.
    pub fn malformed_url_message(&self, url: &str) -> (r: String)
        ensures
            r@ == "Malformed URL: "@ + url@,
    {
        let mut s = "Malformed URL: ".to_owned();
        s.append(url);
        s
    }
}

/// Reports a command word that no command was registered under.
pub struct CommandNotFound {
    name: String,
}

impl CommandNotFound {
    pub closed spec fn spec_name(&self) -> Seq<char> {
        self.name@
    }

    pub fn new(name: &str) -> (r: CommandNotFound)
        ensures
            r.spec_name() == name@,
    {
        CommandNotFound { name: name.to_owned() }
    }

    /// The line printed for the unrecognised word.
    pub fn message(&self) -> (r: String)
        ensures
            r@ == "Could not recognise command '"@ + self.spec_name() + "'"@,
    {
        let mut s = "Could not recognise command '".to_owned();
        s.append(self.name.as_str());
        s.append("'");
        s
    }
}

/// The remote endpoint the client talks to.
pub struct RemoteConfig {
    pub url: String,
}

/// The client's configuration.
pub struct Config {
    pub remote: RemoteConfig,
}

} // verus!
