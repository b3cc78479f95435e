//! Who is still being asked something, and who waits for all of them to have answered.

use tokio_util::sync::CancellationToken;
use vstd::prelude::*;

verus! {

/// Keeps track of the elicitations that are still open.
#[derive(Debug)]
pub struct ElicitationService {
    open: Vec<u64>,
    next: u64,
}

/// One open elicitation. It cannot be copied: whoever holds it gives it back exactly once.
#[derive(Debug)]
pub struct ElicitationRegistration {
    id: u64,
}

impl View for ElicitationRegistration {
    type V = u64;

    closed spec fn view(&self) -> u64 {
        self.id
    }
}

/// Whether a waiter is done waiting.
#[derive(Clone, Copy, Debug, PartialEq, Eq, Structural)]
pub enum WaitStatus {
    Ready,
    Pending,
}

/// The state of an `ElicitationService`.
#[verifier::ext_equal]
pub struct ElicitationView {
    /// The elicitations that are still open.
    pub open: Set<u64>,
    /// How many elicitations there have been.
    pub registered: nat,
}

impl ElicitationView {
    /// Open elicitations were registered before.
    pub open spec fn known(self) -> bool {
        forall|id: u64| #[trigger] self.open.contains(id) ==> id < self.registered
    }

    /// No elicitation is open.
    pub open spec fn clear(self) -> bool {
        forall|id: u64| !self.open.contains(id)
    }

    /// One more elicitation is open.
    pub open spec fn after_register(self) -> ElicitationView {
        ElicitationView {
            open: self.open.insert(self.registered as u64),
            registered: self.registered + 1,
        }
    }

    /// The elicitation `id` is no longer open.
    pub open spec fn after_release(self, id: u64) -> ElicitationView {
        ElicitationView { open: self.open.remove(id), ..self }
    }

    /// Each of `ids` has been released, in that order.
    pub open spec fn after_releases(self, ids: Seq<u64>) -> ElicitationView
        decreases ids.len(),
    {
        if ids.len() == 0 {
            self
        } else {
            self.after_releases(ids.drop_last()).after_release(ids.last())
        }
    }

    /// Where a waiter for all elicitations stands.
    pub open spec fn wait(self) -> WaitStatus {
        if self.clear() {
            WaitStatus::Ready
        } else {
            WaitStatus::Pending
        }
    }

    /// Where a waiter stands who stops waiting when cancelled.
    pub open spec fn wait_or(self, cancelled: bool) -> WaitStatus {
        if cancelled {
            WaitStatus::Ready
        } else {
            self.wait()
        }
    }
}

impl View for ElicitationService {
    type V = ElicitationView;

    closed spec fn view(&self) -> ElicitationView {
        ElicitationView { open: self.open@.to_set(), registered: self.next as nat }
    }
}

impl ElicitationService {
    /// Each open elicitation is listed once and was registered before.
    pub closed spec fn wf(&self) -> bool {
        &&& self.open@.no_duplicates()
        &&& forall|i: int| 0 <= i < self.open.len() ==> #[trigger] self.open[i] < self.next
    }

    /// Nothing is open.
    pub fn new() -> (service: Self)
        ensures
            service.wf(),
            service@ == (ElicitationView { open: Set::empty(), registered: 0 }),
    {
        let service = ElicitationService { open: Vec::new(), next: 0 };
        assert(service@.open =~= Set::empty());
        service
    }

    /// Whether there is a number left for one more elicitation.
    pub fn can_register(&self) -> (room: bool)
        ensures
            room == (self@.registered < u64::MAX),
    {
        self.next < u64::MAX
    }

    /// Opens an elicitation, different from all others.
    pub fn register(&mut self) -> (registration: ElicitationRegistration)
        requires
            old(self).wf(),
            old(self)@.registered < u64::MAX,
        ensures
            final(self).wf(),
            registration@ == old(self)@.registered,
            !old(self)@.open.contains(registration@),
            final(self)@ == old(self)@.after_register(),
    {
        let ghost before = self.open@;
        let id: u64 = self.next;
        self.open.push(id);
        self.next = self.next + 1;
        proof {
            assert(!before.contains(id));
            assert forall|other: u64|
                self.open@.contains(other) <==> before.contains(other) || other == id by {
                if before.contains(other) {
                    let i = before.index_of(other);
                    assert(self.open@[i] == other);
                }
                assert(self.open@[before.len() as int] == id);
            }
            assert(self@.open =~= before.to_set().insert(id));
        }
        ElicitationRegistration { id }
    }

    /// Closes an elicitation. It takes the place of dropping the registration.
    pub fn release(&mut self, registration: ElicitationRegistration)
        requires
            old(self).wf(),
        ensures
            final(self).wf(),
            final(self)@ == old(self)@.after_release(registration@),
    {
        let ghost before = self.open@;
        let mut i: usize = 0;
        while i < self.open.len()
            invariant
                self.wf(),
                self.open@ == before,
                self@ == old(self)@,
                self.next == old(self).next,
                i <= self.open.len(),
                forall|k: int| 0 <= k < i ==> #[trigger] before[k] != registration.id,
            decreases self.open.len() - i,
        {
            if self.open[i] == registration.id {
                self.open.remove(i);
                proof {
                    let after = self.open@;
                    assert forall|id: u64|
                        after.contains(id) <==> before.contains(id) && id != registration.id by {
                        if after.contains(id) {
                            let k = after.index_of(id);
                            assert(before[if k < i {
                                k
                            } else {
                                k + 1
                            }] == id);
                        }
                        if before.contains(id) && id != registration.id {
                            let k = before.index_of(id);
                            assert(after[if k < i {
                                k
                            } else {
                                k - 1
                            }] == id);
                        }
                    }
                    assert(after.to_set() =~= before.to_set().remove(registration.id));
                }
                return ;
            }
            i += 1;
        }
        assert(!before.contains(registration.id));
        assert(before.to_set() =~= before.to_set().remove(registration.id));
    }

    /// Whether someone who waits for every elicitation to be closed is done.
    pub fn wait_until_clear(&self) -> (status: WaitStatus)
        requires
            self.wf(),
        ensures
            status == self@.wait(),
    {
        if self.open.len() == 0 {
            assert(self@.clear());
            WaitStatus::Ready
        } else {
            assert(self@.open.contains(self.open@[0]));
            WaitStatus::Pending
        }
    }

    /// Whether someone who waits for every elicitation to be closed, or to be cancelled, is done.
    pub fn wait_until_clear_unless(&self, cancelled: bool) -> (status: WaitStatus)
        requires
            self.wf(),
        ensures
            status == self@.wait_or(cancelled),
    {
        if cancelled {
            WaitStatus::Ready
        } else {
            self.wait_until_clear()
        }
    }

    /// Whether someone is done who waits as in `wait_until_clear_unless`, going by what `token`
    /// says at the time. The token is asked once; what it says is left open, as it may be raised
    /// at any time. When nothing is open, they are done whatever it says.
    pub fn wait_until_clear_or_cancelled(&self, token: &CancellationToken) -> (status: WaitStatus)
        requires
            self.wf(),
        ensures
            exists|cancelled: bool|
                status == #[trigger] self@.wait_or(cancelled) && call_ensures(
                    CancellationToken::is_cancelled,
                    (token,),
                    cancelled,
                ),
            self@.clear() ==> status == WaitStatus::Ready,
    {
        let cancelled = token.is_cancelled();
        self.wait_until_clear_unless(cancelled)
    }
}

proof fn lemma_open_after_releases(state: ElicitationView, ids: Seq<u64>, id: u64)
    ensures
        state.after_releases(ids).open.contains(id) <==> state.open.contains(id) && !ids.contains(
            id,
        ),
    decreases ids.len(),
{
    if ids.len() > 0 {
        lemma_open_after_releases(state, ids.drop_last(), id);
        if ids.contains(id) && id != ids.last() {
            let k = ids.index_of(id);
            assert(ids.drop_last()[k] == id);
        }
        if ids.drop_last().contains(id) {
            let k = ids.drop_last().index_of(id);
            assert(ids[k] == id);
        }
        assert(ids[ids.len() - 1] == ids.last());
    }
}

/// Someone who waits for all elicitations is done exactly when each open one has been released,
/// in whatever order; until then each one that is left keeps them waiting.
pub proof fn law_waits_for_every_registration(state: ElicitationView, released: Seq<u64>)
    ensures
        state.after_releases(released).wait() == WaitStatus::Ready <==> forall|id: u64|
            state.open.contains(id) ==> released.contains(id),
{
    if state.after_releases(released).clear() {
        assert forall|id: u64| state.open.contains(id) implies released.contains(id) by {
            lemma_open_after_releases(state, released, id);
        }
    } else {
        let id = choose|id: u64| state.after_releases(released).open.contains(id);
        lemma_open_after_releases(state, released, id);
    }
}

/// A registration keeps waiters waiting, and releasing it leaves the others as they were.
pub proof fn law_register_then_release(state: ElicitationView)
    requires
        state.known(),
        state.registered < u64::MAX,
    ensures
        state.after_register().wait() == WaitStatus::Pending,
        state.after_register().known(),
        state.after_register().after_release(state.registered as u64).open == state.open,
{
    let id = state.registered as u64;
    assert(state.after_register().open.contains(id));
    assert(state.after_register().after_release(id).open =~= state.open);
}

/// Every service lists only elicitations that were registered.
pub proof fn law_open_elicitations_are_known(service: ElicitationService)
    requires
        service.wf(),
    ensures
        service@.known(),
{
    assert forall|id: u64| #[trigger] service@.open.contains(id) implies id
        < service@.registered by {
        let k = service.open@.index_of(id);
        assert(service.open[k] == id);
    }
}

/// Being cancelled ends the wait, whatever is still open.
pub proof fn law_cancelled_waiters_stop_waiting(state: ElicitationView)
    ensures
        state.wait_or(true) == WaitStatus::Ready,
        state.wait_or(false) == state.wait(),
{
}

/// A new service has nothing open, and a waiter is done at once.
pub proof fn law_new_service_is_clear(service: ElicitationService, status: WaitStatus)
    requires
        call_ensures(ElicitationService::new, (), service),
        call_ensures(ElicitationService::wait_until_clear, (&service,), status),
    ensures
        service.wf(),
        forall|id: u64| !service@.open.contains(id),
        service@.registered == 0,
        status is Ready,
{
}

/// Registering opens one elicitation that was not open before and has not been registered
/// before, and leaves every other as it was.
pub proof fn law_registering_opens_one_more(
    service: &mut ElicitationService,
    registration: ElicitationRegistration,
)
    requires
        old(service).wf(),
        old(service)@.registered < u64::MAX,
        call_ensures(ElicitationService::register, (service,), registration),
    ensures
        final(service).wf(),
        !old(service)@.open.contains(registration@),
        registration@ == old(service)@.registered,
        final(service)@.registered == old(service)@.registered + 1,
        forall|id: u64| #[trigger]
            final(service)@.open.contains(id) <==> old(service)@.open.contains(id) || id
                == registration@,
{
}

/// Releasing a registration closes that elicitation and no other.
pub proof fn law_releasing_closes_one(
    service: &mut ElicitationService,
    registration: ElicitationRegistration,
)
    requires
        call_ensures(ElicitationService::release, (service, registration), ()),
    ensures
        final(service).wf(),
        final(service)@.registered == old(service)@.registered,
        forall|id: u64| #[trigger]
            final(service)@.open.contains(id) <==> old(service)@.open.contains(id) && id
                != registration@,
{
}

/// Someone who waits is done exactly when nothing is open; someone who stops when cancelled is
/// done exactly when nothing is open or they are cancelled.
pub proof fn law_waiters_wait_for_all_that_is_open(
    service: ElicitationService,
    status: WaitStatus,
    cancelled: bool,
    stopping: WaitStatus,
)
    requires
        call_ensures(ElicitationService::wait_until_clear, (&service,), status),
        call_ensures(ElicitationService::wait_until_clear_unless, (&service, cancelled), stopping),
    ensures
        status is Ready <==> forall|id: u64| !service@.open.contains(id),
        stopping is Ready <==> cancelled || forall|id: u64| !service@.open.contains(id),
{
}

/// Someone who goes by a token is done when nothing is open, and otherwise exactly when that
/// very token said that they are cancelled.
pub proof fn law_waiters_heed_their_token(
    service: ElicitationService,
    token: &CancellationToken,
    status: WaitStatus,
)
    requires
        call_ensures(
            ElicitationService::wait_until_clear_or_cancelled,
            (&service, token),
            status,
        ),
    ensures
        (forall|id: u64| !service@.open.contains(id)) ==> status is Ready,
        (exists|id: u64| service@.open.contains(id)) ==> call_ensures(
            CancellationToken::is_cancelled,
            (token,),
            status is Ready,
        ),
{
}

/// There is room for one more elicitation as long as numbers are left.
pub proof fn law_numbers_are_left(service: ElicitationService, room: bool)
    requires
        call_ensures(ElicitationService::can_register, (&service,), room),
    ensures
        room <==> service@.registered < u64::MAX,
{
}

} // verus!
