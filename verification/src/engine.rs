//! The model server as a child process: how it is started, and when it counts
//! as ready.

use vstd::prelude::*;
use vstd::string::*;

use crate::text::{decimal, decimal_of, lemma_decimal, number, texts};

verus! {

/// How the server is to be started.
#[derive(Debug, PartialEq)]
pub struct EngineOpts {
    /// The program, by path or by name.
    pub bin: String,
    /// The file with the model.
    pub model_path: String,
    /// The address that the server listens on.
    pub host: String,
    /// Its port.
    pub port: u16,
    /// The size of the context.
    pub ctx: u32,
    /// How many layers go to the GPU.
    pub ngl: u32,
}

/// The arguments of the program.
pub open spec fn argument_list(opts: EngineOpts) -> Seq<Seq<char>> {
    seq![
        "-m"@,
        opts.model_path@,
        "--host"@,
        opts.host@,
        "--port"@,
        decimal(opts.port as nat),
        "-c"@,
        decimal(opts.ctx as nat),
        "-ngl"@,
        decimal(opts.ngl as nat),
        "--jinja"@,
    ]
}

/// The address of the server.
pub open spec fn address(host: Seq<char>, port: u16) -> Seq<char> {
    "http://"@ + host + ":"@ + decimal(port as nat)
}

impl EngineOpts {
    /// The arguments of the program. The template of the model is switched on:
    /// without it the server does not understand tool calls.
    pub fn arguments(&self) -> (res: Vec<String>)
        ensures
            texts(res@) == argument_list(*self),
    {
        let port = decimal_of(self.port as u128);
        let ctx = decimal_of(self.ctx as u128);
        let ngl = decimal_of(self.ngl as u128);
        let list: Vec<String> = vec![
            "-m".to_owned(),
            self.model_path.clone(),
            "--host".to_owned(),
            self.host.clone(),
            "--port".to_owned(),
            port,
            "-c".to_owned(),
            ctx,
            "-ngl".to_owned(),
            ngl,
            "--jinja".to_owned(),
        ];
        proof {
            assert(texts(list@) =~= argument_list(*self));
        }
        list
    }

    /// What the user is told when the server is started.
    pub fn start_notice(&self) -> (res: String)
        ensures
            res@ == "Запускаю llama-server: "@ + self.bin@ + " -m "@ + self.model_path@
                + " --port "@ + decimal(self.port as nat) + " -c "@ + decimal(self.ctx as nat)
                + " -ngl "@ + decimal(self.ngl as nat),
    {
        let port = decimal_of(self.port as u128);
        let ctx = decimal_of(self.ctx as u128);
        let ngl = decimal_of(self.ngl as u128);
        let mut text = "Запускаю llama-server: ".to_owned();
        text.append(self.bin.as_str());
        text.append(" -m ");
        text.append(self.model_path.as_str());
        text.append(" --port ");
        text.append(port.as_str());
        text.append(" -c ");
        text.append(ctx.as_str());
        text.append(" -ngl ");
        text.append(ngl.as_str());
        text
    }

    /// What the user is told when the server could not be started.
    pub fn start_failure(&self, reason: &str) -> (res: String)
        ensures
            res@ == "не удалось запустить llama-server (bin: «"@ + self.bin@
                + "»). Проверь, что файл существует и доступен (или лежит в PATH). Причина: "@
                + reason@,
    {
        let mut text = "не удалось запустить llama-server (bin: «".to_owned();
        text.append(self.bin.as_str());
        text.append("»). Проверь, что файл существует и доступен (или лежит в PATH). Причина: ");
        text.append(reason);
        text
    }

    /// The address of the server.
    pub fn server_url(&self) -> (res: String)
        ensures
            res@ == address(self.host@, self.port),
    {
        let port = decimal_of(self.port as u128);
        let mut text = "http://".to_owned();
        text.append(self.host.as_str());
        text.append(":");
        text.append(port.as_str());
        text
    }

    /// Where the server says whether it is ready.
    pub fn health_url(&self) -> (res: String)
        ensures
            res@ == address(self.host@, self.port) + "/health"@,
    {
        let mut text = self.server_url();
        text.append("/health");
        text
    }

    /// What the user is told when the server is ready.
    pub fn ready_notice(&self) -> (res: String)
        ensures
            res@ == "llama-server готов: "@ + address(self.host@, self.port),
    {
        let url = self.server_url();
        let mut text = "llama-server готов: ".to_owned();
        text.append(url.as_str());
        text
    }
}

/// How long the server may take to get ready, in seconds: large models load slowly.
pub const DEADLINE_S: u64 = 300;

/// The same in nanoseconds.
pub const DEADLINE_NS: u128 = 300_000_000_000;

/// The HTTP status by which the server says that it is ready. No other will do.
pub const READY_STATUS: u16 = 200;

/// What has to be looked at next while the server gets ready.
#[derive(Clone, Copy, Debug, PartialEq, Eq)]
pub enum Watch {
    /// Whether its process still runs.
    Process,
    /// How much time has passed.
    Clock,
    /// What it says about its health.
    Health,
    /// Nothing: a short pause is due.
    Pause,
}

/// What was seen.
#[derive(Debug, PartialEq)]
pub enum Sight {
    /// The process runs.
    Running,
    /// The process has ended, with this status.
    Exited(String),
    /// So many nanoseconds have passed since the start.
    Elapsed(u128),
    /// It answered with this HTTP status, or not at all.
    Status(Option<u16>),
    /// The pause is over.
    Rested,
}

/// How things stand.
#[derive(Debug, PartialEq)]
pub enum Health {
    /// Not decided: look at this next.
    Open(Watch),
    /// The server is ready.
    Ready,
    /// The server will not get ready, for this reason.
    Failed(String),
}

/// How things stand, mathematically.
pub ghost enum Condition {
    Open(Watch),
    Ready,
    Failed(Seq<char>),
}

impl View for Health {
    type V = Condition;

    open spec fn view(&self) -> Condition {
        match self {
            Health::Open(watch) => Condition::Open(*watch),
            Health::Ready => Condition::Ready,
            Health::Failed(reason) => Condition::Failed(reason@),
        }
    }
}

/// The reason when the process has ended early.
pub open spec fn exit_reason(status: Seq<char>) -> Seq<char> {
    "llama-server завершился до готовности (код "@ + status
        + "). Частые причины: не хватило VRAM/RAM (попробуй меньше -ngl или меньший -c) либо неверный путь к модели."@
}

/// The reason when the time is up.
pub open spec fn deadline_reason() -> Seq<char> {
    "llama-server не стал готов за "@ + decimal(DEADLINE_S as nat)
        + " с — что-то пошло не так при загрузке модели"@
}

/// How things stand after looking: the process, the clock and the health are
/// looked at in turn, then there is a pause. What was not looked for changes
/// nothing.
pub open spec fn after(watch: Watch, sight: Sight) -> Condition {
    match (watch, sight) {
        (Watch::Process, Sight::Running) => Condition::Open(Watch::Clock),
        (Watch::Process, Sight::Exited(status)) => Condition::Failed(exit_reason(status@)),
        (Watch::Clock, Sight::Elapsed(ns)) => if ns > DEADLINE_NS {
            Condition::Failed(deadline_reason())
        } else {
            Condition::Open(Watch::Health)
        },
        (Watch::Health, Sight::Status(Some(code))) => if code == READY_STATUS {
            Condition::Ready
        } else {
            Condition::Open(Watch::Pause)
        },
        (Watch::Health, Sight::Status(None)) => Condition::Open(Watch::Pause),
        (Watch::Pause, Sight::Rested) => Condition::Open(Watch::Process),
        _ => Condition::Open(watch),
    }
}

/// How things stand after looking.
pub fn wait_healthy(watch: Watch, sight: Sight) -> (res: Health)
    ensures
        res@ == after(watch, sight),
{
    match (watch, sight) {
        (Watch::Process, Sight::Running) => Health::Open(Watch::Clock),
        (Watch::Process, Sight::Exited(status)) => {
            let mut text = "llama-server завершился до готовности (код ".to_owned();
            text.append(status.as_str());
            text.append(
                "). Частые причины: не хватило VRAM/RAM (попробуй меньше -ngl или меньший -c) либо неверный путь к модели.",
            );
            Health::Failed(text)
        },
        (Watch::Clock, Sight::Elapsed(ns)) => if ns > DEADLINE_NS {
            let seconds = decimal_of(DEADLINE_S as u128);
            let mut text = "llama-server не стал готов за ".to_owned();
            text.append(seconds.as_str());
            text.append(" с — что-то пошло не так при загрузке модели");
            Health::Failed(text)
        } else {
            Health::Open(Watch::Health)
        },
        (Watch::Health, Sight::Status(Some(code))) => if code == READY_STATUS {
            Health::Ready
        } else {
            Health::Open(Watch::Pause)
        },
        (Watch::Health, Sight::Status(None)) => Health::Open(Watch::Pause),
        (Watch::Pause, Sight::Rested) => Health::Open(Watch::Process),
        _ => Health::Open(watch),
    }
}

/// How things stand after a list of sights, looking at the process first. Once
/// decided, they stay so.
pub open spec fn after_all(sights: Seq<Sight>) -> Condition
    decreases sights.len(),
{
    if sights.len() == 0 {
        Condition::Open(Watch::Process)
    } else {
        match after_all(sights.drop_last()) {
            Condition::Open(watch) => after(watch, sights.last()),
            decided => decided,
        }
    }
}

/// The server counts as ready only after it has said so itself, and never after
/// its process was seen to have ended or the time was seen to be up.
pub proof fn lemma_ready_is_seen(sights: Seq<Sight>)
    ensures
        after_all(sights) is Ready ==> exists|i: int|
            0 <= i < sights.len() && (#[trigger] sights[i] matches Sight::Status(Some(code)) && code
                == READY_STATUS) && after_all(sights.take(i)) == Condition::Open(Watch::Health),
    decreases sights.len(),
{
    if sights.len() > 0 && after_all(sights) is Ready {
        let front = sights.drop_last();
        lemma_ready_is_seen(front);
        if after_all(front) is Ready {
            let i = choose|i: int|
                0 <= i < front.len() && (#[trigger] front[i] matches Sight::Status(Some(code))
                    && code == READY_STATUS) && after_all(front.take(i)) == Condition::Open(
                    Watch::Health,
                );
            assert(front[i] == sights[i]);
            assert(front.take(i) =~= sights.take(i));
        } else {
            let last = sights.len() - 1;
            assert(sights.take(last) =~= front);
            assert(sights[last] == sights.last());
        }
    }
}

/// A verdict is final.
pub proof fn lemma_verdict_stays(sights: Seq<Sight>, sight: Sight)
    requires
        !(after_all(sights) is Open),
    ensures
        after_all(sights.push(sight)) == after_all(sights),
{
    assert(sights.push(sight).drop_last() =~= sights);
}

/// Each option of the server stands behind its flag, numbers in decimal; the
/// template of the model is switched on; there is nothing else.
pub proof fn lemma_argument_list(opts: EngineOpts)
    ensures
        ({
            let list = argument_list(opts);
            &&& list.len() == 11
            &&& list[0] == "-m"@ && list[1] == opts.model_path@
            &&& list[2] == "--host"@ && list[3] == opts.host@
            &&& list[4] == "--port"@ && number(list[5]) == opts.port
            &&& list[6] == "-c"@ && number(list[7]) == opts.ctx
            &&& list[8] == "-ngl"@ && number(list[9]) == opts.ngl
            &&& list[10] == "--jinja"@
        }),
{
    lemma_decimal(opts.port as nat);
    lemma_decimal(opts.ctx as nat);
    lemma_decimal(opts.ngl as nat);
}

/// The server is reached over HTTP at its host, behind which stands its port.
pub proof fn lemma_address(host: Seq<char>, port: u16)
    ensures
        address(host, port).take(7 + host.len() as int) == "http://"@ + host,
        address(host, port)[7 + host.len() as int] == ':',
        number(address(host, port).skip(8 + host.len() as int)) == port,
{
    reveal_strlit("http://");
    reveal_strlit(":");
    let text = address(host, port);
    lemma_decimal(port as nat);
    assert(text.take(7 + host.len() as int) =~= "http://"@ + host);
    assert(text.skip(8 + host.len() as int) =~= decimal(port as nat));
}

/// One round of looking: a process that has ended is a failure, and its status is
/// in the reason; so is more than 300 seconds of waiting; the answer 200 means
/// that the server is ready; and in any other case there is, after a pause,
/// another round.
pub proof fn lemma_round(
    sights: Seq<Sight>,
    exit: String,
    ns: u128,
    answer: Option<u16>,
)
    requires
        after_all(sights) == Condition::Open(Watch::Process),
    ensures
        after_all(sights.push(Sight::Exited(exit))) is Failed,
        exists|front: Seq<char>, back: Seq<char>|
            after_all(sights.push(Sight::Exited(exit)))->Failed_0 == #[trigger] (front + exit@
                + back),
        ({
            let clock = sights.push(Sight::Running).push(Sight::Elapsed(ns));
            &&& ns > 300_000_000_000 ==> after_all(clock) is Failed
            &&& ns <= 300_000_000_000 ==> {
                let health = clock.push(Sight::Status(answer));
                &&& answer == Some(200u16) ==> after_all(health) == Condition::Ready
                &&& answer != Some(200u16) ==> {
                    &&& after_all(health) is Open
                    &&& after_all(health.push(Sight::Rested)) == Condition::Open(Watch::Process)
                }
            }
        }),
{
    let ended = sights.push(Sight::Exited(exit));
    assert(ended.drop_last() =~= sights);
    let front = "llama-server завершился до готовности (код "@;
    let back =
        "). Частые причины: не хватило VRAM/RAM (попробуй меньше -ngl или меньший -c) либо неверный путь к модели."@;
    assert(after_all(ended)->Failed_0 == front + exit@ + back);
    let one = sights.push(Sight::Running);
    let clock = one.push(Sight::Elapsed(ns));
    let health = clock.push(Sight::Status(answer));
    assert(one.drop_last() =~= sights);
    assert(clock.drop_last() =~= one);
    assert(health.drop_last() =~= clock);
    assert(after_all(one) == Condition::Open(Watch::Clock));
    if ns <= DEADLINE_NS {
        assert(after_all(clock) == Condition::Open(Watch::Health));
        assert(after_all(health) == after(Watch::Health, Sight::Status(answer)));
    }
    assert(health.push(Sight::Rested).drop_last() =~= health);
}

/// The first thing to look at is the process.
pub proof fn lemma_first_watch()
    ensures
        after_all(Seq::empty()) == Condition::Open(Watch::Process),
{
}

/// Only what is looked for counts: anything else that is seen changes nothing.
pub proof fn lemma_only_what_is_looked_for(sight: Sight)
    ensures
        !(sight is Running || sight is Exited) ==> after(Watch::Process, sight)
            == Condition::Open(Watch::Process),
        !(sight is Elapsed) ==> after(Watch::Clock, sight) == Condition::Open(Watch::Clock),
        !(sight is Status) ==> after(Watch::Health, sight) == Condition::Open(Watch::Health),
        !(sight is Rested) ==> after(Watch::Pause, sight) == Condition::Open(Watch::Pause),
{
}

/// When the time is up, the user is told how long it was.
pub proof fn lemma_deadline_reason()
    ensures
        deadline_reason() == "llama-server не стал готов за "@ + seq!['3', '0', '0']
            + " с — что-то пошло не так при загрузке модели"@,
{
    reveal_with_fuel(decimal, 4);
    assert(decimal(300) =~= seq!['3', '0', '0']);
}

/// The view of how things stand is the same verdict, with its reason.
pub proof fn lemma_health_view(watch: Watch, reason: String)
    ensures
        Health::Open(watch)@ == Condition::Open(watch),
        Health::Ready@ == Condition::Ready,
        Health::Failed(reason)@ == Condition::Failed(reason@),
{
}

} // verus!
