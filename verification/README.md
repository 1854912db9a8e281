# Slamwich

A verified 3D LiDAR SLAM library.

- GICP scan matching, projected to the plane
- a pose graph with odometry edges and loop closures, and its optimization
- scan context descriptors for finding loops
- a Kalman filter that fuses odometry with scan matches
- IMU pre-integration for the first guess of a match

## Layout

- `src/` is the library. Numbers are bit patterns with verified arithmetic
  (`src/float`), so the contracts state every formula exactly. Nothing in the
  library is taken on trust.
- `app/` runs the library on a machine: it supplies trigonometric functions,
  nearest neighbours (kiddo), decompositions and linear solutions (nalgebra),
  the clock and the log.
- `tests/` checks the library against the machine's arithmetic and against
  nalgebra, and drives whole scans through it.

## How a scan is processed

Matching, optimizing and the processing of a whole scan are dialogues:
`MatchStage`, `GraphStage` and `ScanStage` hold what is asked for (a rotation by
an angle, the angle of a rotation, nearest points, a linear solution, the time),
and `resume` takes the answer to the next stage. For a scan these are:

1. `Odometry` decides whether the robot has moved and picks a reference.
2. `Guess`, `Match` and `Measure` correct the filter, or count a failure.
3. `Clock`, `Search` and `Found` recover a lost robot.
4. `Heading`, `Motion`, `Describe` and `Stamp` extend the map by a keyframe.
5. `Close` looks for a loop, and `Optimize` straightens the map.
6. `Settle` and `Report` end the scan and report the update.

## What holds of the whole

Beside the contracts of the functions, proof functions state what holds across
calls: `scan_laws` of a scan from beginning to end, `processor` of the shape of
the map, `optimizer` and `graph_laws` of a graph that agrees with its poses,
exactly or up to rounding, `odometry_laws` of a series of odometry poses and of
the correction. `nearness` bounds the rounding
of composed transforms, in last places, so that the laws of rigid motions hold
with a stated error.
