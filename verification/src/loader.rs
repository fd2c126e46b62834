//! From configuration to running batches.
//!
//! Every load drops its request into the collection window and awaits a one-shot reply. The
//! dispatcher turns each closed window into one deduplicated downstream call, and the results
//! go back out by input.
use crate::collector::{is_identity, BatchCollector};
use crate::config::{BatchConfig, Positive};
use crate::dispatch::{are_replies, inputs_of, is_reply, law_requested_iff_awaited};
use crate::dispatch::{Loaded, Reply, Request};
use crate::error::Error;
use crate::gate::most_slots;
use crate::limiter::Slots;
use crate::liveness::{kept, law_kept_in_order};
use crate::pipe;
use crate::pipe::{Answer, Inlet, Outlet};
use crate::receipt::Receipt;
use crate::window::Event;
use std::time::Duration;
use vstd::prelude::*;
use vstd::string::*;

verus! {

/// A handle that loads are made through. Cloning gives another handle on the same channel.
#[verifier::reject_recursive_types(C)]
pub struct BatchLoader<C: BatchCollector> {
    inbound: Inlet<Request<C>>,
}

/// What the collection window runs on.
#[verifier::reject_recursive_types(C)]
pub struct Collecting<C: BatchCollector> {
    pub requests: Outlet<Request<C>>,
    pub windows: Inlet<Vec<Request<C>>>,
    pub window: Duration,
    pub max_batch_size: Positive,
}

/// What the dispatcher runs on.
#[verifier::reject_recursive_types(C)]
pub struct Dispatching<C: BatchCollector> {
    pub collector: C,
    pub windows: Outlet<Vec<Request<C>>>,
    pub slots: Slots,
    pub timeout: Duration,
}

impl<C: BatchCollector> Clone for BatchLoader<C> {
    fn clone(&self) -> (copy: Self)
        ensures
            copy == *self,
    {
        BatchLoader { inbound: self.inbound.clone() }
    }
}

impl<C: BatchCollector> BatchLoader<C> {
    /// Where the loads go.
    pub closed spec fn inbound(&self) -> Inlet<Request<C>> {
        self.inbound
    }

    /// Where the loads go.
    pub fn inlet(&self) -> (inlet: &Inlet<Request<C>>)
        ensures
            *inlet == self.inbound(),
    {
        &self.inbound
    }

    /// Lays the channels of a loader: loads flow into the collection window, closed windows
    /// into the dispatcher. Inbound buffers a burst up to one window's worth; outbound holds at
    /// most one closed window awaiting dispatch, since deeper buffering would only hide
    /// backpressure behind memory.
    pub fn wire(collector: C, config: &BatchConfig) -> (wired: (
        Self,
        Collecting<C>,
        Dispatching<C>,
    ))
        requires
            config.max_batch_size.value() <= most_slots(),
        ensures
            ({
                let (loader, collecting, dispatching) = wired;
                &&& loader.inbound().capacity() == config.max_batch_size.value()
                &&& collecting.requests.inlet() == loader.inbound()
                &&& collecting.windows.capacity() == 1
                &&& dispatching.windows.inlet() == collecting.windows
                &&& collecting.window == config.window
                &&& collecting.max_batch_size == config.max_batch_size
                &&& dispatching.collector == collector
                &&& dispatching.timeout == config.timeout
                &&& call_ensures(Slots::from_config, (config,), dispatching.slots)
            }),
    {
        let (inbound, requests) = pipe::bounded(config.max_batch_size.get());
        let (windows, closed) = pipe::bounded(1);
        let slots = Slots::from_config(config);
        (
            BatchLoader { inbound },
            Collecting {
                requests,
                windows,
                window: config.window,
                max_batch_size: config.max_batch_size,
            },
            Dispatching { collector, windows: closed, slots, timeout: config.timeout },
        )
    }

    /// One load on its way: the request for the window, and where its answer arrives.
    pub fn request(input: C::Input) -> (made: (Request<C>, Answer<Reply<C>>))
        ensures
            made.0.input == input,
            made.1.respond() == made.0.respond,
    {
        let (respond, answer) = pipe::reply_channel();
        (Request { input, respond }, answer)
    }

    /// What a load returns: its reply, or that nobody is left to serve it.
    pub fn conclude(end: LoadEnd<C>) -> (result: Reply<C>)
        ensures
            result == match end {
                LoadEnd::NotTaken => Err(Error::Closed),
                LoadEnd::Unanswered => Err(Error::Closed),
                LoadEnd::Answered(reply) => reply,
            },
    {
        match end {
            LoadEnd::NotTaken => Err(Error::Closed),
            LoadEnd::Unanswered => Err(Error::Closed),
            LoadEnd::Answered(reply) => reply,
        }
    }
}

/// How a load ended.
#[verifier::reject_recursive_types(C)]
pub enum LoadEnd<C: BatchCollector> {
    /// The window was not there to take its request.
    NotTaken,
    /// The responder was dropped without an answer: the dispatcher is gone.
    Unanswered,
    /// Its reply arrived.
    Answered(Reply<C>),
}

/// The arrival of a request at the collection window, where its input tells duplicates.
pub fn arrival<C: BatchCollector>(request: Request<C>) -> (event: Event<Request<C>, C::Input>)
    requires
        is_identity::<C::Input>(),
    ensures
        event == Event::Item(request, request.input),
{
    let input = request.input.clone();
    assert(cloned(request.input, input));
    Event::Item(request, input)
}

/// The text logged for a batch task that ended abnormally, unless it did not.
pub open spec fn report(outcome: Result<(), String>) -> Option<Seq<char>> {
    match outcome {
        Ok(()) => None,
        Err(cause) => Some("carpool: a batch task ended abnormally: "@ + cause@),
    }
}

/// Results travel over their reply channels; only an abnormal end needs surfacing:
/// the text to log, unless the batch task ended normally.
pub fn report_batch(outcome: Result<(), String>) -> (warning: Option<String>)
    ensures
        match warning {
            None => report(outcome) is None,
            Some(text) => report(outcome) == Some(text@),
        },
{
    match outcome {
        Ok(()) => None,
        Err(cause) => {
            let mut text: String = "carpool: a batch task ended abnormally: ".to_owned();
            text.append(cause.as_str());
            Some(text)
        },
    }
}

/// What a dispatcher hears of.
#[verifier::reject_recursive_types(C)]
pub enum News<C: BatchCollector> {
    /// A window closed.
    Window(Vec<Request<C>>),
    /// No window will follow.
    SourceClosed,
    /// A batch task ended, with its cause if it ended abnormally.
    BatchEnded(Result<(), String>),
    /// No batch task is running.
    NoneRunning,
}

/// What a dispatcher does next.
#[verifier::reject_recursive_types(C)]
pub enum Order<C: BatchCollector> {
    /// Run this batch on a task of its own.
    Start(Vec<Request<C>>),
    /// Listen on.
    Listen,
    /// Log this text, then listen on.
    Log(String),
    /// Everything is served.
    Stop,
}

/// One task per window, and the running ones are drained once the source closes.
pub struct Dispatcher {
    open: bool,
}

/// Whether news can come: windows come only while the source is open, and only a dispatcher
/// that drains is told that nothing runs.
pub open spec fn can_come<C: BatchCollector>(open: bool, news: News<C>) -> bool {
    match news {
        News::Window(_) => open,
        News::SourceClosed => open,
        News::BatchEnded(_) => true,
        News::NoneRunning => !open,
    }
}

/// What a dispatcher does at news, and whether its source is open afterwards.
pub open spec fn is_order<C: BatchCollector>(
    open: bool,
    news: News<C>,
    order: Order<C>,
    after: bool,
) -> bool {
    match news {
        News::Window(batch) => order == Order::<C>::Start(batch) && after == open,
        News::SourceClosed => order == Order::<C>::Listen && !after,
        News::BatchEnded(outcome) => {
            &&& after == open
            &&& match report(outcome) {
                None => order == Order::<C>::Listen,
                Some(text) => order is Log && order->Log_0@ == text,
            }
        },
        News::NoneRunning => order == Order::<C>::Stop && after == open,
    }
}

impl Dispatcher {
    /// Whether windows may still come.
    pub closed spec fn is_open(&self) -> bool {
        self.open
    }

    /// A dispatcher whose source is open.
    pub fn new() -> (dispatcher: Self)
        ensures
            dispatcher.is_open(),
    {
        Dispatcher { open: true }
    }

    /// Whether to listen for windows, and not only for batches that end.
    pub fn open(&self) -> (open: bool)
        ensures
            open == self.is_open(),
    {
        self.open
    }

    /// Takes in one piece of news.
    pub fn on<C: BatchCollector>(&mut self, news: News<C>) -> (order: Order<C>)
        requires
            can_come(old(self).is_open(), news),
        ensures
            is_order(old(self).is_open(), news, order, final(self).is_open()),
    {
        match news {
            News::Window(batch) => Order::Start(batch),
            News::SourceClosed => {
                self.open = false;
                Order::Listen
            },
            News::BatchEnded(outcome) => match report_batch(outcome) {
                Some(text) => Order::Log(text),
                None => Order::Listen,
            },
            News::NoneRunning => Order::Stop,
        }
    }
}

/// Where a dispatcher stands: whether its source is open, and how many batches it started that
/// have not ended.
pub struct Standing {
    pub open: bool,
    pub running: int,
}

/// Where a dispatcher stands after `news`.
pub open spec fn standing<C: BatchCollector>(news: Seq<News<C>>) -> Standing
    decreases news.len(),
{
    if news.len() == 0 {
        Standing { open: true, running: 0 }
    } else {
        let before = standing(news.drop_last());
        match news.last() {
            News::Window(_) => Standing { open: before.open, running: before.running + 1 },
            News::SourceClosed => Standing { open: false, running: before.running },
            News::BatchEnded(_) => Standing { open: before.open, running: before.running - 1 },
            News::NoneRunning => before,
        }
    }
}

/// Whether each piece of news can come where the ones before it led, and tells the truth of the
/// batches that run.
pub open spec fn can_all_come<C: BatchCollector>(news: Seq<News<C>>) -> bool
    decreases news.len(),
{
    news.len() > 0 ==> {
        let before = standing(news.drop_last());
        &&& can_all_come(news.drop_last())
        &&& can_come(before.open, news.last())
        &&& news.last() is BatchEnded ==> before.running > 0
        &&& news.last() is NoneRunning ==> before.running == 0
    }
}

/// These are the orders a dispatcher gave at these pieces of news.
pub open spec fn are_orders<C: BatchCollector>(news: Seq<News<C>>, orders: Seq<Order<C>>) -> bool {
    &&& orders.len() == news.len()
    &&& forall|i: int|
        #![trigger orders[i]]
        0 <= i < news.len() ==> is_order(
            standing(news.take(i)).open,
            news[i],
            orders[i],
            standing(news.take(i + 1)).open,
        )
}

/// The windows among the news, in order.
pub open spec fn windows<C: BatchCollector>(news: Seq<News<C>>) -> Seq<Vec<Request<C>>>
    decreases news.len(),
{
    if news.len() == 0 {
        Seq::empty()
    } else {
        match news.last() {
            News::Window(batch) => windows(news.drop_last()).push(batch),
            _ => windows(news.drop_last()),
        }
    }
}

/// The batches that were started, in order.
pub open spec fn started<C: BatchCollector>(orders: Seq<Order<C>>) -> Seq<Vec<Request<C>>>
    decreases orders.len(),
{
    if orders.len() == 0 {
        Seq::empty()
    } else {
        match orders.last() {
            Order::Start(batch) => started(orders.drop_last()).push(batch),
            _ => started(orders.drop_last()),
        }
    }
}

/// The orders but the last are the orders at the news but the last.
proof fn lemma_orders_without_the_last<C: BatchCollector>(
    news: Seq<News<C>>,
    orders: Seq<Order<C>>,
)
    requires
        are_orders(news, orders),
        news.len() > 0,
    ensures
        are_orders(news.drop_last(), orders.drop_last()),
{
    let n = news.drop_last();
    let o = orders.drop_last();
    assert forall|i: int| #![trigger o[i]] 0 <= i < n.len() implies is_order(
        standing(n.take(i)).open,
        n[i],
        o[i],
        standing(n.take(i + 1)).open,
    ) by {
        assert(o[i] == orders[i]);
        assert(n.take(i) =~= news.take(i));
        assert(n.take(i + 1) =~= news.take(i + 1));
    }
}

/// Every closed window becomes one batch task, in order: none is dropped, none runs twice.
pub proof fn law_every_window_is_started_once<C: BatchCollector>(
    news: Seq<News<C>>,
    orders: Seq<Order<C>>,
)
    requires
        are_orders(news, orders),
    ensures
        started(orders) == windows(news),
    decreases news.len(),
{
    if news.len() > 0 {
        let n = news.drop_last();
        let o = orders.drop_last();
        lemma_orders_without_the_last(news, orders);
        law_every_window_is_started_once(n, o);
        assert(orders[orders.len() - 1] == orders.last());
    }
}

/// A dispatcher that stops has served everything: its source is closed, and every batch it
/// started has ended.
pub proof fn law_stops_only_when_drained<C: BatchCollector>(
    news: Seq<News<C>>,
    orders: Seq<Order<C>>,
    at: int,
)
    requires
        can_all_come(news),
        are_orders(news, orders),
        0 <= at < orders.len(),
        orders[at] is Stop,
    ensures
        !standing(news.take(at)).open,
        standing(news.take(at)).running == 0,
    decreases news.len(),
{
    if at + 1 == news.len() {
        assert(news.take(at) =~= news.drop_last());
    } else {
        let n = news.drop_last();
        let o = orders.drop_last();
        lemma_orders_without_the_last(news, orders);
        assert(o[at] == orders[at]);
        law_stops_only_when_drained(n, o, at);
        assert(n.take(at) =~= news.take(at));
    }
}

/// Every load of a window whose caller still waits is served: its input is asked for downstream,
/// and the reply for that input is handed to the channel whose answer the load awaits.
pub proof fn law_every_waiting_load_is_served<C: BatchCollector>(
    batch: Seq<Request<C>>,
    closed: Seq<bool>,
    answers: Seq<Answer<Reply<C>>>,
    loaded: Loaded<C>,
    receipts: Seq<Receipt<Reply<C>>>,
    i: int,
) -> (j: int)
    requires
        closed.len() == batch.len(),
        answers.len() == batch.len(),
        forall|k: int|
            0 <= k < batch.len() ==> (#[trigger] answers[k]).respond() == batch[k].respond,
        are_replies(kept(batch, closed), loaded, receipts),
        0 <= i < batch.len(),
        !closed[i],
    ensures
        inputs_of(kept(batch, closed)).contains(batch[i].input),
        0 <= j < receipts.len(),
        receipts[j].respond() == answers[i].respond(),
        is_reply(
            loaded,
            inputs_of(kept(batch, closed)),
            batch[i].input,
            receipts[j].value(),
        ),
{
    let at = law_kept_in_order(batch, closed);
    assert(at.contains(i));
    let j = at.index_of(i);
    assert(kept(batch, closed)[j] == batch[at[j]]);
    assert(receipts[j].respond() == batch[i].respond);
    law_requested_iff_awaited(batch, closed, batch[i].input);
    assert(!closed[i] && batch[i].input == batch[i].input);
    j
}

/// One step of a dispatcher, for any news: it goes on listening for windows unless the source
/// closed, a window is started as it is, an abnormal end is logged with its cause and a normal one
/// is not, and it stops only when told that nothing runs.
pub proof fn law_a_dispatcher_listens_until_the_source_closes<C: BatchCollector>(
    dispatcher: &mut Dispatcher,
    news: News<C>,
    order: Order<C>,
)
    requires
        call_ensures(Dispatcher::on::<C>, (dispatcher, news), order),
    ensures
        final(dispatcher).is_open() <==> old(dispatcher).is_open() && !(news is SourceClosed),
        order is Start <==> news is Window,
        news is Window ==> order->Start_0 == news->Window_0,
        order is Log <==> news is BatchEnded && news->BatchEnded_0 is Err,
        order is Log ==> order->Log_0@ == "carpool: a batch task ended abnormally: "@
            + news->BatchEnded_0->Err_0@,
        order is Stop <==> news is NoneRunning,
{
}

/// A dispatcher's source is open exactly until it closes: after any run of its own steps it
/// listens for windows if and only if no news so far said that the source closed. What it ordered
/// in such a run are the orders that the laws on runs speak of.
pub proof fn law_open_exactly_until_the_source_closes<C: BatchCollector>(
    first: Dispatcher,
    opens: Seq<bool>,
    news: Seq<News<C>>,
    orders: Seq<Order<C>>,
    at: int,
)
    requires
        call_ensures(Dispatcher::new, (), first),
        opens.len() == news.len() + 1,
        orders.len() == news.len(),
        opens[0] == first.is_open(),
        forall|i: int|
            #![trigger orders[i]]
            0 <= i < news.len() ==> is_order(opens[i], news[i], orders[i], opens[i + 1]),
        0 <= at <= news.len(),
    ensures
        opens[at] <==> forall|i: int| 0 <= i < at ==> !(#[trigger] news[i] is SourceClosed),
        are_orders(news, orders),
{
    assert forall|m: int| 0 <= m <= news.len() implies #[trigger] opens[m] == standing(
        news.take(m),
    ).open && (opens[m] <==> forall|i: int|
        0 <= i < m ==> !(#[trigger] news[i] is SourceClosed)) by {
        lemma_opens(opens, news, orders, m);
    }
    assert forall|i: int| #![trigger orders[i]] 0 <= i < news.len() implies is_order(
        standing(news.take(i)).open,
        news[i],
        orders[i],
        standing(news.take(i + 1)).open,
    ) by {
        assert(opens[i] == standing(news.take(i)).open);
        assert(opens[i + 1] == standing(news.take(i + 1)).open);
    }
    assert(opens[at] == opens[at]);
}

/// Whether the source is open after the first `m` steps.
proof fn lemma_opens<C: BatchCollector>(
    opens: Seq<bool>,
    news: Seq<News<C>>,
    orders: Seq<Order<C>>,
    m: int,
)
    requires
        opens.len() == news.len() + 1,
        orders.len() == news.len(),
        opens[0],
        forall|i: int|
            #![trigger orders[i]]
            0 <= i < news.len() ==> is_order(opens[i], news[i], orders[i], opens[i + 1]),
        0 <= m <= news.len(),
    ensures
        opens[m] == standing(news.take(m)).open,
        opens[m] <==> forall|i: int| 0 <= i < m ==> !(#[trigger] news[i] is SourceClosed),
    decreases m,
{
    if m > 0 {
        lemma_opens(opens, news, orders, m - 1);
        assert(news.take(m).drop_last() =~= news.take(m - 1));
        assert(is_order(opens[m - 1], news[m - 1], orders[m - 1], opens[m]));
        if news[m - 1] is SourceClosed {
            assert(!opens[m]);
        }
    } else {
        assert(news.take(m) =~= Seq::empty());
    }
}

/// As many batches run as windows came and have not ended.
pub proof fn law_running_is_started_but_not_ended<C: BatchCollector>(news: Seq<News<C>>)
    ensures
        standing(news).running == windows(news).len() - ended(news),
    decreases news.len(),
{
    if news.len() > 0 {
        law_running_is_started_but_not_ended(news.drop_last());
    }
}

/// How many batches ended.
pub open spec fn ended<C: BatchCollector>(news: Seq<News<C>>) -> nat
    decreases news.len(),
{
    if news.len() == 0 {
        0
    } else {
        ended(news.drop_last()) + if news.last() is BatchEnded {
            1nat
        } else {
            0nat
        }
    }
}

/// Every part of a loader hangs together as configured: what goes in at the loader, or at any
/// clone of it, comes out at the window; what the window hands off comes out at the dispatcher; a
/// burst of one window fits, and one closed window waits at most; the window and the dispatcher go
/// by the times, the size and the limits of the configuration.
pub proof fn law_a_loader_is_wired_as_configured<C: BatchCollector>(
    collector: C,
    config: BatchConfig,
    wired: (BatchLoader<C>, Collecting<C>, Dispatching<C>),
    copy: BatchLoader<C>,
)
    requires
        call_ensures(BatchLoader::<C>::wire, (collector, &config), wired),
        call_ensures(BatchLoader::<C>::clone, (&wired.0,), copy),
    ensures
        wired.1.requests.inlet() == wired.0.inbound(),
        wired.1.requests.inlet() == copy.inbound(),
        wired.2.windows.inlet() == wired.1.windows,
        wired.0.inbound().capacity() == config.max_batch_size.value(),
        wired.1.windows.capacity() == 1,
        wired.1.window == config.window,
        wired.1.max_batch_size.value() == config.max_batch_size.value(),
        wired.2.timeout == config.timeout,
        wired.2.collector == collector,
        wired.2.slots is Unlimited <==> config.concurrency_limit is None,
        wired.2.slots is Limited ==> wired.2.slots->max_waiting == config.max_waiting
            && wired.2.slots->permits.slots() <= config.concurrency_limit->0.value(),
        wired.2.slots is Limited && config.concurrency_limit->0.value() <= usize::MAX / 8
            ==> wired.2.slots->permits.slots() == config.concurrency_limit->0.value(),
{
}

/// A load asks for its own input, is told apart from others by it, and awaits the channel that its
/// request carries; it returns the reply that came, whatever it is, and is closed only if none did.
pub proof fn law_a_load_returns_its_reply<C: BatchCollector>(
    input: C::Input,
    made: (Request<C>, Answer<Reply<C>>),
    event: Event<Request<C>, C::Input>,
    end: LoadEnd<C>,
    result: Reply<C>,
)
    requires
        call_ensures(BatchLoader::<C>::request, (input,), made),
        call_ensures(arrival::<C>, (made.0,), event),
        call_ensures(BatchLoader::<C>::conclude, (end,), result),
    ensures
        made.0.input == input,
        made.1.respond() == made.0.respond,
        event is Item,
        event->Item_0.input == input,
        event->Item_0.respond == made.0.respond,
        event->Item_1 == input,
        end is Answered ==> result == end->Answered_0,
        !(end is Answered) ==> result is Err && result->Err_0 is Closed,
{
}

/// A batch task is reported exactly when it ended abnormally, and its cause is in the report.
pub proof fn law_only_abnormal_ends_are_reported(
    outcome: Result<(), String>,
    warning: Option<String>,
)
    requires
        call_ensures(report_batch, (outcome,), warning),
    ensures
        warning is Some <==> outcome is Err,
        warning is Some ==> warning->0@ == "carpool: a batch task ended abnormally: "@
            + outcome->Err_0@,
{
}

/// A dispatcher takes whatever can come next: a window or the end of the source while its source
/// is open, that nothing runs once it is closed, and the end of a batch at any time.
pub proof fn law_a_dispatcher_takes_what_comes<C: BatchCollector>(
    dispatcher: &mut Dispatcher,
    news: News<C>,
)
    requires
        news is Window || news is SourceClosed ==> old(dispatcher).is_open(),
        news is NoneRunning ==> !old(dispatcher).is_open(),
    ensures
        call_requires(Dispatcher::on::<C>, (dispatcher, news)),
{
}

/// A loader can be wired for every size that a channel can buffer.
pub proof fn law_every_size_a_channel_can_buffer_is_wired<C: BatchCollector>(
    collector: C,
    config: BatchConfig,
)
    requires
        config.max_batch_size.value() <= usize::MAX / 8,
    ensures
        call_requires(BatchLoader::<C>::wire, (collector, &config)),
{
}

} // verus!
