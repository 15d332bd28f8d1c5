//! The aggregate that owns the three record collections, its append
//! operations, and its query operations: blood-sugar statistics and the
//! day-horizon filter over appointments.

use vstd::prelude::*;

use crate::records::Appointment;
use crate::records::BloodSugarReading;
use crate::records::Medication;
use crate::records::day_diff;
use crate::records::day_diff_days;
use crate::stats::lemma_mean_bounds;
use crate::stats::lemma_min_max_bounds;
use crate::stats::max_of;
use crate::stats::mean_of;
use crate::stats::min_of;
use crate::stats::sum_of;

verus! {

/// The appointments of `appts`, in order, whose whole-day distance from
/// `now` is at most `days`. Appointments already in the past have a
/// non-positive distance and are kept.
pub open spec fn upcoming_spec(appts: Seq<Appointment>, now: int, days: int) -> Seq<Appointment>
    decreases appts.len(),
{
    if appts.len() == 0 {
        Seq::empty()
    } else {
        let rest = upcoming_spec(appts.drop_last(), now, days);
        if day_diff(appts.last().date as int, now) <= days {
            rest.push(appts.last())
        } else {
            rest
        }
    }
}

/// The aggregate root: three insertion-ordered collections, only ever grown.
pub struct HealthData {
    pub blood_sugar_readings: Vec<BloodSugarReading>,
    pub medications: Vec<Medication>,
    pub appointments: Vec<Appointment>,
}

impl HealthData {
    /// The stored blood-sugar values, in tenths of a mg/dL, as mathematical
    /// integers in insertion order.
    pub open spec fn bs_values(&self) -> Seq<int> {
        self.blood_sugar_readings@.map_values(|r: BloodSugarReading| r.value_tenths as int)
    }

    /// Returns an aggregate with all three collections empty.
    pub fn new() -> (r: HealthData)
        ensures
            r.blood_sugar_readings@ == Seq::<BloodSugarReading>::empty(),
            r.medications@ == Seq::<Medication>::empty(),
            r.appointments@ == Seq::<Appointment>::empty(),
    {
        HealthData { blood_sugar_readings: Vec::new(), medications: Vec::new(), appointments: Vec::new() }
    }

    /// Appends a reading; the other collections are untouched.
    pub fn add_blood_sugar(&mut self, value_tenths: i64, timestamp: i64)
        ensures
            final(self).blood_sugar_readings@ == old(self).blood_sugar_readings@.push(
                BloodSugarReading { value_tenths, timestamp },
            ),
            final(self).medications@ == old(self).medications@,
            final(self).appointments@ == old(self).appointments@,
    {
        self.blood_sugar_readings.push(BloodSugarReading { value_tenths, timestamp });
    }

    /// Appends a medication record: the count grows by exactly one and the
    /// three fields are stored unmodified; the other collections are
    /// untouched.
    pub fn add_medication(&mut self, name: String, dosage: String, frequency: String)
        ensures
            final(self).medications@ == old(self).medications@.push(
                Medication { name, dosage, frequency },
            ),
            final(self).medications@.len() == old(self).medications@.len() + 1,
            final(self).blood_sugar_readings@ == old(self).blood_sugar_readings@,
            final(self).appointments@ == old(self).appointments@,
    {
        self.medications.push(Medication { name, dosage, frequency });
    }

    /// Appends an appointment record; the other collections are untouched.
    pub fn add_appointment(&mut self, date: i64, doctor: String, appointment_type: String)
        ensures
            final(self).appointments@ == old(self).appointments@.push(
                Appointment { date, doctor, appointment_type },
            ),
            final(self).blood_sugar_readings@ == old(self).blood_sugar_readings@,
            final(self).medications@ == old(self).medications@,
    {
        self.appointments.push(Appointment { date, doctor, appointment_type });
    }

    /// The floor of the arithmetic mean of all reading values, or `None`
    /// exactly when no reading has been added.
    #[verifier::loop_isolation(false)]
    pub fn average_blood_sugar(&self) -> (r: Option<i64>)
        ensures
            r is Some <==> self.bs_values().len() > 0,
            r matches Some(a) ==> a as int == mean_of(self.bs_values()),
    {
        let n = self.blood_sugar_readings.len();
        if n == 0 {
            return None;
        }
        let mut sum: i128 = 0;
        let mut i: usize = 0;
        while i < n
            invariant
                i <= n,
                sum == sum_of(self.bs_values().take(i as int)),
                -((i as int) * 0x8000_0000_0000_0000) <= sum
                    <= (i as int) * 0x7FFF_FFFF_FFFF_FFFF,
            decreases n - i,
        {
            let v = self.blood_sugar_readings[i].value_tenths;
            proof {
                let vs = self.bs_values();
                assert(vs.take(i as int + 1).drop_last() =~= vs.take(i as int));
                assert(vs.take(i as int + 1).last() == v as int);
                assert((-((i as int + 1) * 0x8000_0000_0000_0000) <= sum + v as int
                    <= (i as int + 1) * 0x7FFF_FFFF_FFFF_FFFF) && (i as int + 1)
                    * 0x7FFF_FFFF_FFFF_FFFF <= 0xFFFF_FFFF_FFFF_FFFF * 0x7FFF_FFFF_FFFF_FFFF
                    && (i as int + 1) * 0x8000_0000_0000_0000 <= 0xFFFF_FFFF_FFFF_FFFF
                    * 0x8000_0000_0000_0000) by (nonlinear_arith)
                    requires
                        -((i as int) * 0x8000_0000_0000_0000) <= sum <= (i as int)
                            * 0x7FFF_FFFF_FFFF_FFFF,
                        -0x8000_0000_0000_0000 <= v as int <= 0x7FFF_FFFF_FFFF_FFFF,
                        0 <= i as int + 1 <= 0xFFFF_FFFF_FFFF_FFFF,
                ;
            }
            sum = sum + v as i128;
            i = i + 1;
        }
        proof {
            assert(self.bs_values().take(n as int) =~= self.bs_values());
        }
        let q = sum.checked_div_euclid(n as i128);
        proof {
            let vs = self.bs_values();
            assert forall|j: int| 0 <= j < vs.len() implies -0x8000_0000_0000_0000
                <= #[trigger] vs[j] <= 0x7FFF_FFFF_FFFF_FFFF by {
                assert(vs[j] == self.blood_sugar_readings@[j].value_tenths as int);
            }
            lemma_min_max_bounds(vs);
            lemma_mean_bounds(vs);
            let jn = choose|jn: int| 0 <= jn < vs.len() && vs[jn] == min_of(vs);
            let jx = choose|jx: int| 0 <= jx < vs.len() && vs[jx] == max_of(vs);
            assert(-0x8000_0000_0000_0000 <= mean_of(vs) <= 0x7FFF_FFFF_FFFF_FFFF);
        }
        match q {
            Some(a) => Some(a as i64),
            None => {
                proof {
                    assert(false);
                }
                None
            },
        }
    }

    /// The minimum, maximum, and floor mean of all reading values, or `None`
    /// exactly when no reading has been added.
    #[verifier::loop_isolation(false)]
    pub fn blood_sugar_stats(&self) -> (r: Option<(i64, i64, i64)>)
        ensures
            r is Some <==> self.bs_values().len() > 0,
            r matches Some(t) ==> t.0 as int == min_of(self.bs_values()) && t.1 as int == max_of(
                self.bs_values(),
            ) && t.2 as int == mean_of(self.bs_values()),
    {
        let n = self.blood_sugar_readings.len();
        if n == 0 {
            return None;
        }
        let mut mn = self.blood_sugar_readings[0].value_tenths;
        let mut mx = mn;
        proof {
            assert(self.bs_values().take(1).len() == 1);
            assert(self.bs_values().take(1)[0] == mn as int);
        }
        let mut i: usize = 1;
        while i < n
            invariant
                1 <= i <= n,
                mn as int == min_of(self.bs_values().take(i as int)),
                mx as int == max_of(self.bs_values().take(i as int)),
            decreases n - i,
        {
            let v = self.blood_sugar_readings[i].value_tenths;
            proof {
                let vs = self.bs_values();
                assert(vs.take(i as int + 1).drop_last() =~= vs.take(i as int));
                assert(vs.take(i as int + 1).last() == v as int);
            }
            if v < mn {
                mn = v;
            }
            if v > mx {
                mx = v;
            }
            i = i + 1;
        }
        proof {
            assert(self.bs_values().take(n as int) =~= self.bs_values());
        }
        let avg = match self.average_blood_sugar() {
            Some(a) => a,
            None => {
                proof {
                    assert(false);
                }
                0
            },
        };
        Some((mn, mx, avg))
    }

    /// Returns the appointments within `days` whole days of the machine
    /// clock's current instant, captured once at call time: for some such
    /// instant, the result is exactly the horizon filter at that instant.
    pub fn upcoming_appointments_from_now(&self, days: i64) -> (r: Vec<Appointment>)
        ensures
            exists|now: int|
                r@ == #[trigger] upcoming_spec(self.appointments@, now, days as int),
    {
        let now = crate::clock::now_timestamp();
        let r = self.upcoming_appointments(now, days);
        proof {
            assert(r@ == upcoming_spec(self.appointments@, now as int, days as int));
        }
        r
    }

    /// Returns copies of exactly the appointments whose whole-day distance
    /// from `now` is at most `days`, in insertion order. Past appointments
    /// are not excluded: their distance is non-positive.
    #[verifier::loop_isolation(false)]
    pub fn upcoming_appointments(&self, now: i64, days: i64) -> (r: Vec<Appointment>)
        ensures
            r@ == upcoming_spec(self.appointments@, now as int, days as int),
    {
        let mut out: Vec<Appointment> = Vec::new();
        let n = self.appointments.len();
        proof {
            assert(self.appointments@.take(0) =~= Seq::<Appointment>::empty());
        }
        let mut i: usize = 0;
        while i < n
            invariant
                i <= n,
                out@ == upcoming_spec(self.appointments@.take(i as int), now as int, days as int),
            decreases n - i,
        {
            let a = &self.appointments[i];
            proof {
                let s = self.appointments@;
                assert(s.take(i as int + 1).drop_last() =~= s.take(i as int));
                assert(s.take(i as int + 1).last() == s[i as int]);
            }
            if day_diff_days(a.date, now) <= days {
                out.push(
                    Appointment {
                        date: a.date,
                        doctor: a.doctor.clone(),
                        appointment_type: a.appointment_type.clone(),
                    },
                );
                proof {
                    assert(out@.last() == self.appointments@[i as int]);
                }
            }
            i = i + 1;
        }
        proof {
            assert(self.appointments@.take(n as int) =~= self.appointments@);
        }
        out
    }
}

/// Law: the horizon filter is exact. Every returned appointment lies within
/// `days` whole days of `now`; every returned appointment is one of the
/// stored ones; and every stored appointment within the horizon is returned.
pub proof fn lemma_upcoming_exact(appts: Seq<Appointment>, now: int, days: int)
    ensures
        forall|i: int|
            0 <= i < upcoming_spec(appts, now, days).len() ==> day_diff(
                #[trigger] upcoming_spec(appts, now, days)[i].date as int,
                now,
            ) <= days,
        forall|a: Appointment|
            #[trigger] upcoming_spec(appts, now, days).contains(a) ==> appts.contains(a),
        forall|i: int|
            0 <= i < appts.len() && day_diff(appts[i].date as int, now) <= days ==> upcoming_spec(
                appts,
                now,
                days,
            ).contains(#[trigger] appts[i]),
    decreases appts.len(),
{
    if appts.len() > 0 {
        let sub = appts.drop_last();
        let up = upcoming_spec(appts, now, days);
        let up_sub = upcoming_spec(sub, now, days);
        lemma_upcoming_exact(sub, now, days);
        assert forall|i: int| 0 <= i < up.len() implies day_diff(
            #[trigger] up[i].date as int,
            now,
        ) <= days by {
            if i < up_sub.len() {
                assert(up[i] == up_sub[i]);
            } else {
                assert(up[i] == appts.last());
            }
        }
        assert forall|a: Appointment| #[trigger] up.contains(a) implies appts.contains(a) by {
            let j = choose|j: int| 0 <= j < up.len() && up[j] == a;
            if j < up_sub.len() {
                assert(up_sub.contains(a));
                let k = choose|k: int| 0 <= k < sub.len() && sub[k] == a;
                assert(appts[k] == a);
            } else {
                assert(appts[appts.len() - 1] == a);
            }
        }
        assert forall|i: int|
            0 <= i < appts.len() && day_diff(appts[i].date as int, now) <= days implies up.contains(
            #[trigger] appts[i],
        ) by {
            if i < appts.len() - 1 {
                assert(sub[i] == appts[i]);
                assert(up_sub.contains(appts[i]));
                let k = choose|k: int| 0 <= k < up_sub.len() && up_sub[k] == appts[i];
                assert(up[k] == appts[i]);
            } else {
                assert(up[up.len() - 1] == appts[i]);
            }
        }
    }
}

} // verus!
