//! Named problems and their parts, and what a request to change them answers.
//!
//! A part that is set once (boundary, robot, goal) is created by a post and
//! replaced by a put. Obstacles and problems are kept under unique names.

use vstd::prelude::*;
use crate::planner::{plan, plan_outcome};
use crate::scene::{Boundary, Goal, Obstacle, Point, Robot, Scene};

verus! {

/// The answer to a request.
#[derive(Clone, Copy, Debug, PartialEq, Eq, Structural)]
pub enum Status {
    /// The request was carried out.
    Success,
    /// The problem or obstacle that the request names does not exist.
    NotFound,
    /// The request does not fit what is there: a post of what exists, or a put
    /// of a part that was never posted.
    Conflict,
    /// The problem has no route to offer.
    BadRequest,
}

/// Whether `key` is among `keys`.
pub open spec fn has_key(keys: Seq<String>, key: Seq<char>) -> bool {
    exists|i: int| 0 <= i < keys.len() && (#[trigger] keys[i])@ == key
}

/// Whether no key occurs twice.
pub open spec fn distinct_keys(keys: Seq<String>) -> bool {
    forall|i: int, j: int|
        0 <= i < j < keys.len() ==> (#[trigger] keys[i])@ != (#[trigger] keys[j])@
}

/// Whether `i` is the first place at which `key` stands in `keys`.
pub open spec fn first_at(keys: Seq<String>, key: Seq<char>, i: int) -> bool {
    &&& 0 <= i < keys.len()
    &&& keys[i]@ == key
    &&& forall|j: int| 0 <= j < i ==> (#[trigger] keys[j])@ != key
}

/// A slot and the answer after a post: an empty slot takes the value, a full
/// one stays and the post conflicts.
pub open spec fn posted<T>(slot: Option<T>, value: T) -> (Option<T>, Status) {
    match slot {
        Some(_) => (slot, Status::Conflict),
        None => (Some(value), Status::Success),
    }
}

/// A slot and the answer after a put: a full slot takes the value, an empty
/// one stays and the put conflicts.
pub open spec fn replaced<T>(slot: Option<T>, value: T) -> (Option<T>, Status) {
    match slot {
        Some(_) => (Some(value), Status::Success),
        None => (slot, Status::Conflict),
    }
}

/// The first place at which `key` stands in `keys`, if any.
pub fn position(keys: &Vec<String>, key: &String) -> (found: Option<usize>)
    ensures
        match found {
            Some(i) => first_at(keys@, key@, i as int),
            None => !has_key(keys@, key@),
        },
{
    let mut i: usize = 0;
    while i < keys.len()
        invariant
            i <= keys.len(),
            forall|j: int| 0 <= j < i ==> (#[trigger] keys@[j])@ != key@,
        decreases keys.len() - i,
    {
        if keys[i] == *key {
            return Some(i);
        }
        i += 1;
    }
    None
}

/// Fills an empty slot; a full slot stays as it is.
pub fn post_slot<T>(slot: &mut Option<T>, value: T) -> (status: Status)
    ensures
        (*final(slot), status) == posted(*old(slot), value),
{
    if slot.is_some() {
        Status::Conflict
    } else {
        *slot = Some(value);
        Status::Success
    }
}

/// Replaces what a full slot holds; an empty slot stays empty.
pub fn put_slot<T>(slot: &mut Option<T>, value: T) -> (status: Status)
    ensures
        (*final(slot), status) == replaced(*old(slot), value),
{
    if slot.is_some() {
        *slot = Some(value);
        Status::Success
    } else {
        Status::Conflict
    }
}

/// One problem: its scene, and the name of each obstacle of the scene.
#[derive(Clone, Debug)]
pub struct Problem {
    pub scene: Scene,
    pub obstacle_ids: Vec<String>,
}

impl Problem {
    /// Every obstacle has a name, and no two have the same.
    pub open spec fn wf(self) -> bool {
        &&& self.obstacle_ids@.len() == self.scene.obstacles@.len()
        &&& distinct_keys(self.obstacle_ids@)
    }

    /// The problem with another boundary.
    pub open spec fn with_boundary(self, boundary: Option<Boundary>) -> Problem {
        Problem { scene: Scene { boundary, ..self.scene }, ..self }
    }

    /// The problem with another robot.
    pub open spec fn with_robot(self, robot: Option<Robot>) -> Problem {
        Problem { scene: Scene { robot, ..self.scene }, ..self }
    }

    /// The problem with another goal.
    pub open spec fn with_goal(self, goal: Option<Goal>) -> Problem {
        Problem { scene: Scene { goal, ..self.scene }, ..self }
    }

    /// Whether two problems differ in their obstacles at most.
    pub open spec fn same_parts(self, other: Problem) -> bool {
        &&& self.scene.boundary == other.scene.boundary
        &&& self.scene.robot == other.scene.robot
        &&& self.scene.goal == other.scene.goal
    }

    /// A problem with nothing set.
    pub fn new() -> (problem: Problem)
        ensures
            problem.wf(),
            !problem.scene.is_complete(),
            problem.scene.boundary is None,
            problem.scene.robot is None,
            problem.scene.goal is None,
            problem.scene.obstacles@.len() == 0,
            problem.obstacle_ids@.len() == 0,
    {
        Problem { scene: Scene::new(), obstacle_ids: Vec::new() }
    }

    /// Adds an obstacle under a name that is not in use.
    pub fn post_obstacle(&mut self, id: String, obstacle: Obstacle) -> (status: Status)
        requires
            old(self).wf(),
        ensures
            final(self).wf(),
            final(self).same_parts(*old(self)),
            has_key(old(self).obstacle_ids@, id@) ==> status == Status::Conflict && *final(self)
                == *old(self),
            !has_key(old(self).obstacle_ids@, id@) ==> status == Status::Success && final(self).obstacle_ids@ == old(self).obstacle_ids@.push(id) && final(self).scene.obstacles@
                == old(self).scene.obstacles@.push(obstacle),
    {
        match position(&self.obstacle_ids, &id) {
            Some(_) => Status::Conflict,
            None => {
                self.obstacle_ids.push(id);
                self.scene.obstacles.push(obstacle);
                Status::Success
            },
        }
    }

    /// Replaces the obstacle of the given name.
    pub fn put_obstacle(&mut self, id: &String, obstacle: Obstacle) -> (status: Status)
        requires
            old(self).wf(),
        ensures
            final(self).wf(),
            final(self).same_parts(*old(self)),
            final(self).obstacle_ids == old(self).obstacle_ids,
            !has_key(old(self).obstacle_ids@, id@) ==> status == Status::NotFound && *final(self)
                == *old(self),
            forall|i: int|
                #[trigger] first_at(old(self).obstacle_ids@, id@, i) ==> status == Status::Success && final(self).scene.obstacles@ == old(self).scene.obstacles@.update(i, obstacle),
    {
        match position(&self.obstacle_ids, id) {
            Some(i) => {
                self.scene.obstacles[i] = obstacle;
                Status::Success
            },
            None => Status::NotFound,
        }
    }

    /// Removes the obstacle of the given name.
    pub fn delete_obstacle(&mut self, id: &String) -> (status: Status)
        requires
            old(self).wf(),
        ensures
            final(self).wf(),
            final(self).same_parts(*old(self)),
            !has_key(old(self).obstacle_ids@, id@) ==> status == Status::NotFound && *final(self)
                == *old(self),
            forall|i: int|
                #[trigger] first_at(old(self).obstacle_ids@, id@, i) ==> status == Status::Success && final(self).obstacle_ids@ == old(self).obstacle_ids@.remove(i) && final(self).scene.obstacles@ == old(self).scene.obstacles@.remove(i),
            !has_key(final(self).obstacle_ids@, id@),
    {
        match position(&self.obstacle_ids, id) {
            Some(i) => {
                self.obstacle_ids.remove(i);
                self.scene.obstacles.remove(i);
                proof {
                    lemma_remove_keeps_distinct(old(self).obstacle_ids@, i as int);
                }
                Status::Success
            },
            None => Status::NotFound,
        }
    }

    /// The route of the problem's scene, or `BadRequest` where planning fails.
    pub fn path(&self) -> (answer: Result<Vec<Point>, Status>)
        ensures
            match plan_outcome(self.scene) {
                Ok(points) => answer matches Ok(found) && found@ == points,
                Err(_) => answer == Err::<Vec<Point>, Status>(Status::BadRequest),
            },
    {
        match plan(&self.scene) {
            Ok(points) => Ok(points),
            Err(_) => Err(Status::BadRequest),
        }
    }
}

impl Default for Problem {
    /// A problem with nothing set.
    fn default() -> (problem: Problem)
        ensures
            problem.wf(),
            problem.scene.boundary is None,
            problem.scene.robot is None,
            problem.scene.goal is None,
            problem.scene.obstacles@.len() == 0,
            problem.obstacle_ids@.len() == 0,
    {
        Problem::new()
    }
}

/// The problems of a service, each under its name.
#[derive(Clone, Debug)]
pub struct Registry {
    names: Vec<String>,
    problems: Vec<Problem>,
}

impl Registry {
    /// The names of the problems, in the order in which they were posted.
    pub closed spec fn name_seq(self) -> Seq<String> {
        self.names@
    }

    /// The problems, each at the place of its name.
    pub closed spec fn problem_seq(self) -> Seq<Problem> {
        self.problems@
    }

    /// Every problem has a name, no two have the same, and each is well formed.
    pub open spec fn wf(self) -> bool {
        &&& self.name_seq().len() == self.problem_seq().len()
        &&& distinct_keys(self.name_seq())
        &&& forall|i: int|
            0 <= i < self.problem_seq().len() ==> (#[trigger] self.problem_seq()[i]).wf()
    }

    /// A registry without problems.
    pub fn new() -> (registry: Registry)
        ensures
            registry.wf(),
            registry.name_seq().len() == 0,
            registry.problem_seq().len() == 0,
    {
        Registry { names: Vec::new(), problems: Vec::new() }
    }

    /// The names of the problems, in the order in which they were posted.
    pub fn names(&self) -> (names: &Vec<String>)
        ensures
            names@ == self.name_seq(),
    {
        &self.names
    }

    /// Adds an empty problem under a name that is not in use.
    pub fn post(&mut self, name: String) -> (status: Status)
        requires
            old(self).wf(),
        ensures
            final(self).wf(),
            has_key(old(self).name_seq(), name@) ==> status == Status::Conflict && *final(self)
                == *old(self),
            !has_key(old(self).name_seq(), name@) ==> {
                &&& status == Status::Success
                &&& final(self).name_seq() == old(self).name_seq().push(name)
                &&& final(self).problem_seq().len() == old(self).problem_seq().len() + 1
                &&& final(self).problem_seq().drop_last() == old(self).problem_seq()
                &&& final(self).problem_seq().last().scene.boundary is None
                &&& final(self).problem_seq().last().scene.robot is None
                &&& final(self).problem_seq().last().scene.goal is None
                &&& final(self).problem_seq().last().scene.obstacles@.len() == 0
                &&& final(self).problem_seq().last().obstacle_ids@.len() == 0
            },
    {
        match position(&self.names, &name) {
            Some(_) => Status::Conflict,
            None => {
                self.names.push(name);
                self.problems.push(Problem::default());
                assert(final(self).problem_seq().drop_last() =~= old(self).problem_seq());
                Status::Success
            },
        }
    }

    /// Removes the problem of the given name.
    pub fn delete(&mut self, name: &String) -> (status: Status)
        requires
            old(self).wf(),
        ensures
            final(self).wf(),
            !has_key(final(self).name_seq(), name@),
            !has_key(old(self).name_seq(), name@) ==> status == Status::NotFound && *final(self)
                == *old(self),
            forall|i: int|
                #[trigger] first_at(old(self).name_seq(), name@, i) ==> status == Status::Success && final(self).name_seq() == old(self).name_seq().remove(i) && final(self).problem_seq() == old(self).problem_seq().remove(i),
    {
        match position(&self.names, name) {
            Some(i) => {
                self.names.remove(i);
                self.problems.remove(i);
                proof {
                    lemma_remove_keeps_distinct(old(self).name_seq(), i as int);
                }
                Status::Success
            },
            None => Status::NotFound,
        }
    }

    /// Sets the boundary of a problem that has none.
    pub fn post_boundary(&mut self, name: &String, boundary: Boundary) -> (status: Status)
        requires
            old(self).wf(),
        ensures
            final(self).wf(),
            final(self).name_seq() == old(self).name_seq(),
            !has_key(old(self).name_seq(), name@) ==> status == Status::NotFound && *final(self)
                == *old(self),
            forall|i: int|
                #[trigger] first_at(old(self).name_seq(), name@, i) ==> {
                    let before = old(self).problem_seq()[i];
                    let after = posted(before.scene.boundary, boundary);
                    status == after.1 && final(self).problem_seq() == old(self).problem_seq().update(
                        i,
                        before.with_boundary(after.0),
                    )
                },
    {
        match position(&self.names, name) {
            None => Status::NotFound,
            Some(i) => {
                let status = post_slot(&mut self.problems[i].scene.boundary, boundary);
                status
            },
        }
    }

    /// Replaces the boundary of a problem that has one.
    pub fn put_boundary(&mut self, name: &String, boundary: Boundary) -> (status: Status)
        requires
            old(self).wf(),
        ensures
            final(self).wf(),
            final(self).name_seq() == old(self).name_seq(),
            !has_key(old(self).name_seq(), name@) ==> status == Status::NotFound && *final(self)
                == *old(self),
            forall|i: int|
                #[trigger] first_at(old(self).name_seq(), name@, i) ==> {
                    let before = old(self).problem_seq()[i];
                    let after = replaced(before.scene.boundary, boundary);
                    status == after.1 && final(self).problem_seq() == old(self).problem_seq().update(
                        i,
                        before.with_boundary(after.0),
                    )
                },
    {
        match position(&self.names, name) {
            None => Status::NotFound,
            Some(i) => {
                let status = put_slot(&mut self.problems[i].scene.boundary, boundary);
                status
            },
        }
    }

    /// Sets the robot of a problem that has none.
    pub fn post_robot(&mut self, name: &String, robot: Robot) -> (status: Status)
        requires
            old(self).wf(),
        ensures
            final(self).wf(),
            final(self).name_seq() == old(self).name_seq(),
            !has_key(old(self).name_seq(), name@) ==> status == Status::NotFound && *final(self)
                == *old(self),
            forall|i: int|
                #[trigger] first_at(old(self).name_seq(), name@, i) ==> {
                    let before = old(self).problem_seq()[i];
                    let after = posted(before.scene.robot, robot);
                    status == after.1 && final(self).problem_seq() == old(self).problem_seq().update(
                        i,
                        before.with_robot(after.0),
                    )
                },
    {
        match position(&self.names, name) {
            None => Status::NotFound,
            Some(i) => {
                let status = post_slot(&mut self.problems[i].scene.robot, robot);
                status
            },
        }
    }

    /// Replaces the robot of a problem that has one.
    pub fn put_robot(&mut self, name: &String, robot: Robot) -> (status: Status)
        requires
            old(self).wf(),
        ensures
            final(self).wf(),
            final(self).name_seq() == old(self).name_seq(),
            !has_key(old(self).name_seq(), name@) ==> status == Status::NotFound && *final(self)
                == *old(self),
            forall|i: int|
                #[trigger] first_at(old(self).name_seq(), name@, i) ==> {
                    let before = old(self).problem_seq()[i];
                    let after = replaced(before.scene.robot, robot);
                    status == after.1 && final(self).problem_seq() == old(self).problem_seq().update(
                        i,
                        before.with_robot(after.0),
                    )
                },
    {
        match position(&self.names, name) {
            None => Status::NotFound,
            Some(i) => {
                let status = put_slot(&mut self.problems[i].scene.robot, robot);
                status
            },
        }
    }

    /// Sets the goal of a problem that has none.
    pub fn post_goal(&mut self, name: &String, goal: Goal) -> (status: Status)
        requires
            old(self).wf(),
        ensures
            final(self).wf(),
            final(self).name_seq() == old(self).name_seq(),
            !has_key(old(self).name_seq(), name@) ==> status == Status::NotFound && *final(self)
                == *old(self),
            forall|i: int|
                #[trigger] first_at(old(self).name_seq(), name@, i) ==> {
                    let before = old(self).problem_seq()[i];
                    let after = posted(before.scene.goal, goal);
                    status == after.1 && final(self).problem_seq() == old(self).problem_seq().update(
                        i,
                        before.with_goal(after.0),
                    )
                },
    {
        match position(&self.names, name) {
            None => Status::NotFound,
            Some(i) => {
                let status = post_slot(&mut self.problems[i].scene.goal, goal);
                status
            },
        }
    }

    /// Replaces the goal of a problem that has one.
    pub fn put_goal(&mut self, name: &String, goal: Goal) -> (status: Status)
        requires
            old(self).wf(),
        ensures
            final(self).wf(),
            final(self).name_seq() == old(self).name_seq(),
            !has_key(old(self).name_seq(), name@) ==> status == Status::NotFound && *final(self)
                == *old(self),
            forall|i: int|
                #[trigger] first_at(old(self).name_seq(), name@, i) ==> {
                    let before = old(self).problem_seq()[i];
                    let after = replaced(before.scene.goal, goal);
                    status == after.1 && final(self).problem_seq() == old(self).problem_seq().update(
                        i,
                        before.with_goal(after.0),
                    )
                },
    {
        match position(&self.names, name) {
            None => Status::NotFound,
            Some(i) => {
                let status = put_slot(&mut self.problems[i].scene.goal, goal);
                status
            },
        }
    }

    /// The names of a problem's obstacles, or `None` where no problem has the
    /// given name.
    pub fn obstacles(&self, name: &String) -> (ids: Option<&Vec<String>>)
        requires
            self.wf(),
        ensures
            !has_key(self.name_seq(), name@) ==> ids is None,
            forall|i: int|
                #[trigger] first_at(self.name_seq(), name@, i) ==> ids == Some(&self.problem_seq()[i].obstacle_ids),
    {
        match position(&self.names, name) {
            None => None,
            Some(i) => Some(&self.problems[i].obstacle_ids),
        }
    }

    /// Adds an obstacle to a problem, under a name that the problem does not use.
    pub fn post_obstacle(&mut self, name: &String, id: String, obstacle: Obstacle) -> (status:
        Status)
        requires
            old(self).wf(),
        ensures
            final(self).wf(),
            final(self).name_seq() == old(self).name_seq(),
            !has_key(old(self).name_seq(), name@) ==> status == Status::NotFound && *final(self)
                == *old(self),
            forall|i: int|
                #[trigger] first_at(old(self).name_seq(), name@, i) ==> {
                    let before = old(self).problem_seq()[i];
                    let after = final(self).problem_seq()[i];
                    &&& final(self).problem_seq() == old(self).problem_seq().update(i, after)
                    &&& after.same_parts(before)
                    &&& has_key(before.obstacle_ids@, id@) ==> status == Status::Conflict && after
                        == before
                    &&& !has_key(before.obstacle_ids@, id@) ==> status == Status::Success
                        && after.obstacle_ids@ == before.obstacle_ids@.push(id)
                        && after.scene.obstacles@ == before.scene.obstacles@.push(obstacle)
                },
    {
        match position(&self.names, name) {
            None => Status::NotFound,
            Some(i) => {
                let status = self.problems[i].post_obstacle(id, obstacle);
                status
            },
        }
    }

    /// Replaces the obstacle of a problem that has the given name.
    pub fn put_obstacle(&mut self, name: &String, id: &String, obstacle: Obstacle) -> (status:
        Status)
        requires
            old(self).wf(),
        ensures
            final(self).wf(),
            final(self).name_seq() == old(self).name_seq(),
            !has_key(old(self).name_seq(), name@) ==> status == Status::NotFound && *final(self)
                == *old(self),
            forall|i: int|
                #[trigger] first_at(old(self).name_seq(), name@, i) ==> {
                    let before = old(self).problem_seq()[i];
                    let after = final(self).problem_seq()[i];
                    &&& final(self).problem_seq() == old(self).problem_seq().update(i, after)
                    &&& after.same_parts(before)
                    &&& after.obstacle_ids == before.obstacle_ids
                    &&& !has_key(before.obstacle_ids@, id@) ==> status == Status::NotFound && after
                        == before
                    &&& forall|k: int|
                        #[trigger] first_at(before.obstacle_ids@, id@, k) ==> status == Status::Success
                            && after.scene.obstacles@ == before.scene.obstacles@.update(k, obstacle)
                },
    {
        match position(&self.names, name) {
            None => Status::NotFound,
            Some(i) => {
                let status = self.problems[i].put_obstacle(id, obstacle);
                status
            },
        }
    }

    /// Removes the obstacle of a problem that has the given name.
    pub fn delete_obstacle(&mut self, name: &String, id: &String) -> (status: Status)
        requires
            old(self).wf(),
        ensures
            final(self).wf(),
            final(self).name_seq() == old(self).name_seq(),
            !has_key(old(self).name_seq(), name@) ==> status == Status::NotFound && *final(self)
                == *old(self),
            forall|i: int|
                #[trigger] first_at(old(self).name_seq(), name@, i) ==> {
                    let before = old(self).problem_seq()[i];
                    let after = final(self).problem_seq()[i];
                    &&& final(self).problem_seq() == old(self).problem_seq().update(i, after)
                    &&& after.same_parts(before)
                    &&& !has_key(before.obstacle_ids@, id@) ==> status == Status::NotFound && after
                        == before
                    &&& forall|k: int|
                        #[trigger] first_at(before.obstacle_ids@, id@, k) ==> status == Status::Success
                            && after.obstacle_ids@ == before.obstacle_ids@.remove(k)
                            && after.scene.obstacles@ == before.scene.obstacles@.remove(k)
                },
    {
        match position(&self.names, name) {
            None => Status::NotFound,
            Some(i) => {
                let status = self.problems[i].delete_obstacle(id);
                status
            },
        }
    }

    /// The problem of the given name, if there is one.
    pub fn problem(&self, name: &String) -> (found: Option<&Problem>)
        requires
            self.wf(),
        ensures
            !has_key(self.name_seq(), name@) ==> found is None,
            forall|i: int|
                #[trigger] first_at(self.name_seq(), name@, i) ==> found == Some(
                    &self.problem_seq()[i],
                ),
    {
        match position(&self.names, name) {
            None => None,
            Some(i) => Some(&self.problems[i]),
        }
    }

    /// The route of the problem of the given name: `NotFound` where there is no
    /// such problem, `BadRequest` where planning fails.
    pub fn path(&self, name: &String) -> (answer: Result<Vec<Point>, Status>)
        requires
            self.wf(),
        ensures
            !has_key(self.name_seq(), name@) ==> answer == Err::<Vec<Point>, Status>(Status::NotFound),
            forall|i: int|
                #[trigger] first_at(self.name_seq(), name@, i) ==> match plan_outcome(self.problem_seq()[i].scene) {
                    Ok(points) => answer matches Ok(found) && found@ == points,
                    Err(_) => answer == Err::<Vec<Point>, Status>(Status::BadRequest),
                },
    {
        match position(&self.names, name) {
            None => Err(Status::NotFound),
            Some(i) => self.problems[i].path(),
        }
    }
}

/// Taking one key out of distinct keys leaves distinct keys, without that key.
pub proof fn lemma_remove_keeps_distinct(keys: Seq<String>, i: int)
    requires
        distinct_keys(keys),
        0 <= i < keys.len(),
    ensures
        distinct_keys(keys.remove(i)),
        !has_key(keys.remove(i), keys[i]@),
{
    let rest = keys.remove(i);
    assert forall|a: int, b: int| 0 <= a < b < rest.len() implies (#[trigger] rest[a])@ != (
    #[trigger] rest[b])@ by {
        let a0 = if a < i { a } else { a + 1 };
        let b0 = if b < i { b } else { b + 1 };
        assert(rest[a] == keys[a0]);
        assert(rest[b] == keys[b0]);
    }
    assert forall|a: int| 0 <= a < rest.len() implies (#[trigger] rest[a])@ != keys[i]@ by {
        let a0 = if a < i { a } else { a + 1 };
        assert(rest[a] == keys[a0]);
    }
}

} // verus!
